//! Line-wrap layout: the visual row decomposition of each logical line and
//! the bidirectional mapping between buffer byte offsets and screen cells.
//!
//! For a configured text width, each logical line is greedily split into
//! visual rows: a row takes as many characters as fit, and always at least
//! one. Display width is counted per character, not per byte: a tab counts as
//! the configured tab width, a UTF-8 continuation byte as zero (so a
//! multi-byte character is counted once, at its leading byte), every other
//! byte as one column. An empty logical line yields exactly one empty row.
//!
//! Where a requested column falls between character boundaries, the mapping
//! rounds to the first character boundary at or past the requested column,
//! clamped to the row's end; this one rule is used consistently for mouse
//! hit-testing and for vertical movement across rows of different lengths.

use vstd::prelude::*;

verus! {

/// Default tab display width.
pub const DEFAULT_TAB_WIDTH: usize = 4;

/// Layout configuration: viewport text width and wrap mode.
#[derive(Clone, Copy, Debug)]
pub struct LayoutConfig {
    /// Whether long logical lines wrap onto multiple visual rows. When false,
    /// every logical line is exactly one visual row.
    pub wrap_enabled: bool,
    /// Viewport text width in columns (terminal width minus reservations).
    pub width: usize,
    /// Display width of a tab character.
    pub tab_width: usize,
}

impl LayoutConfig {
    /// Sane bounds: a positive width no wider than a terminal can be, and a
    /// small positive tab width, so that column arithmetic stays small.
    pub open spec fn wf(self) -> bool {
        &&& 1 <= self.width <= 65535
        &&& 1 <= self.tab_width <= 16
    }

    pub fn new(width: usize, wrap_enabled: bool) -> (r: LayoutConfig)
        requires
            1 <= width <= 65535,
        ensures
            r.wf(),
            r.width == width,
            r.wrap_enabled == wrap_enabled,
            r.tab_width == DEFAULT_TAB_WIDTH,
    {
        LayoutConfig { wrap_enabled, width, tab_width: DEFAULT_TAB_WIDTH }
    }
}

/// Display width of one byte: a tab counts `tab` columns, a UTF-8
/// continuation byte zero, anything else one.
pub open spec fn byte_width(b: u8, tab: nat) -> nat {
    if b == 9 {
        tab
    } else if 128 <= b && b < 192 {
        0
    } else {
        1
    }
}

/// Executable counterpart of `byte_width`.
pub fn byte_width_exec(b: u8, tab: usize) -> (r: usize)
    requires
        tab >= 1,
    ensures
        r == byte_width(b, tab as nat),
{
    if b == 9 {
        tab
    } else if 128 <= b && b < 192 {
        0
    } else {
        1
    }
}

/// Total display width of `line[from..to]`.
pub open spec fn width_sum(line: Seq<u8>, from: int, to: int, tab: nat) -> nat
    decreases to - from,
{
    if from >= to {
        0
    } else {
        byte_width(line[from], tab) + width_sum(line, from + 1, to, tab)
    }
}

/// End of the greedy visual row being scanned at `pos` with `col` columns
/// already used: characters are taken while they fit in `width` columns; a
/// row always takes at least one character, and zero-width bytes always
/// attach to the current row.
pub open spec fn row_end_from(line: Seq<u8>, pos: int, col: nat, width: nat, tab: nat) -> int
    decreases line.len() - pos,
{
    if pos >= line.len() {
        line.len() as int
    } else {
        let w = byte_width(line[pos], tab);
        if col == 0 || w == 0 || col + w <= width {
            row_end_from(line, pos + 1, (col + w) as nat, width, tab)
        } else {
            pos
        }
    }
}

/// `row_end_from` stays within `[pos, line.len()]`, and strictly advances
/// from a fresh row start.
pub proof fn lemma_row_end_bounds(line: Seq<u8>, pos: int, col: nat, width: nat, tab: nat)
    requires
        pos <= line.len(),
    ensures
        pos <= row_end_from(line, pos, col, width, tab) <= line.len(),
        pos < line.len() && col == 0 ==> row_end_from(line, pos, col, width, tab) >= pos + 1,
    decreases line.len() - pos,
{
    if pos < line.len() {
        let w = byte_width(line[pos], tab);
        if col == 0 || w == 0 || col + w <= width {
            lemma_row_end_bounds(line, pos + 1, (col + w) as nat, width, tab);
        }
    }
}

/// Column accounting along one greedy row: starting a row scan with at most
/// `width + tab` columns used, every prefix of the row stays within
/// `width + tab` columns.
pub proof fn lemma_row_col_bound(
    line: Seq<u8>,
    pos: int,
    col: nat,
    width: nat,
    tab: nat,
    q: int,
)
    requires
        0 <= pos <= q <= line.len(),
        q <= row_end_from(line, pos, col, width, tab),
        col <= width + tab,
        tab >= 1,
    ensures
        col + width_sum(line, pos, q, tab) <= width + tab,
    decreases q - pos,
{
    if q > pos {
        let w = byte_width(line[pos], tab);
        assert(w <= tab);
        lemma_row_end_bounds(line, pos + 1, (col + w) as nat, width, tab);
        lemma_row_col_bound(line, pos + 1, (col + w) as nat, width, tab, q);
    }
}

/// The greedy visual rows of `line` from `start` on, as half-open byte
/// ranges.
pub open spec fn wrap_rows_from(line: Seq<u8>, start: int, width: nat, tab: nat) -> Seq<(int, int)>
    decreases line.len() - start,
    via wrap_rows_from_dec
{
    let e = row_end_from(line, start, 0, width, tab);
    if e >= line.len() {
        seq![(start, line.len() as int)]
    } else {
        seq![(start, e)] + wrap_rows_from(line, e, width, tab)
    }
}

#[via_fn]
proof fn wrap_rows_from_dec(line: Seq<u8>, start: int, width: nat, tab: nat) {
    let e = row_end_from(line, start, 0, width, tab);
    if e < line.len() {
        // The non-recursive branch covers start >= line.len(), so here the
        // scan took at least the row's first character.
        assert(start < line.len());
        let w = byte_width(line[start], tab);
        assert(row_end_from(line, start, 0, width, tab) == row_end_from(
            line,
            start + 1,
            w,
            width,
            tab,
        ));
        lemma_row_end_bounds(line, start + 1, w, width, tab);
    }
}

/// The visual rows of a whole logical line: one or more half-open,
/// contiguous byte ranges covering the line; an empty line is one empty row.
pub open spec fn wrap_rows(line: Seq<u8>, width: nat, tab: nat) -> Seq<(int, int)> {
    wrap_rows_from(line, 0, width, tab)
}

/// Structural facts about the greedy row decomposition: at least one row,
/// the rows are contiguous, start at `start`, end at the line's end, and
/// every row of a nonempty suffix is nonempty.
pub proof fn lemma_wrap_rows_structure(line: Seq<u8>, start: int, width: nat, tab: nat)
    requires
        0 <= start <= line.len(),
    ensures
        ({
            let rows = wrap_rows_from(line, start, width, tab);
            &&& rows.len() >= 1
            &&& rows[0].0 == start
            &&& rows.last().1 == line.len()
            &&& forall|k: int| #![trigger rows[k]] 0 <= k < rows.len() ==> start <= rows[k].0 <= rows[k].1 <= line.len()
            &&& forall|k: int| #![trigger rows[k]] 0 <= k < rows.len() - 1 ==> rows[k].1 == rows[k + 1].0
            &&& start < line.len() ==> forall|k: int| #![trigger rows[k]] 0 <= k < rows.len() ==> rows[k].0 < rows[k].1
            &&& forall|k: int|
                #![trigger rows[k]]
                0 <= k < rows.len() ==> row_end_from(line, rows[k].0, 0, width, tab) == rows[k].1
            &&& rows.len() <= line.len() - start + 1
        }),
    decreases line.len() - start,
{
    let e = row_end_from(line, start, 0, width, tab);
    lemma_row_end_bounds(line, start, 0, width, tab);
    if e < line.len() {
        lemma_wrap_rows_structure(line, e, width, tab);
    }
}

/// The index of the visual row holding byte offset `o`: the row whose range
/// contains `o`, or the last row when `o` is at the line's very end.
pub open spec fn row_index_of(rows: Seq<(int, int)>, o: int) -> int
    decreases rows.len(),
{
    if rows.len() <= 1 {
        0
    } else if o < rows[0].1 {
        0
    } else {
        1 + row_index_of(rows.skip(1), o)
    }
}

/// `row_index_of` lands on a row containing the offset.
pub proof fn lemma_row_index_of(rows: Seq<(int, int)>, o: int)
    requires
        rows.len() >= 1,
        rows[0].0 <= o <= rows.last().1,
        forall|k: int| #![trigger rows[k]] 0 <= k < rows.len() - 1 ==> rows[k].1 == rows[k + 1].0,
        forall|k: int| #![trigger rows[k]] 0 <= k < rows.len() ==> rows[k].0 <= rows[k].1,
    ensures
        ({
            let r = row_index_of(rows, o);
            &&& 0 <= r < rows.len()
            &&& rows[r].0 <= o <= rows[r].1
            &&& r < rows.len() - 1 ==> o < rows[r].1
        }),
    decreases rows.len(),
{
    if rows.len() > 1 && o >= rows[0].1 {
        let tail = rows.skip(1);
        assert(forall|k: int| #![trigger tail[k]] 0 <= k < tail.len() - 1 ==> tail[k].1 == tail[k + 1].0);
        assert(forall|k: int| #![trigger tail[k]] 0 <= k < tail.len() ==> tail[k].0 <= tail[k].1);
        assert(tail.last() == rows.last());
        lemma_row_index_of(tail, o);
        assert(rows[1 + row_index_of(tail, o)] == tail[row_index_of(tail, o)]);
    }
}

/// Computes the greedy visual rows of one logical line (the line's bytes,
/// without its terminator).
pub fn wrap_line(line: &[u8], width: usize, tab: usize) -> (r: Vec<(usize, usize)>)
    requires
        1 <= width <= 65535,
        1 <= tab <= 16,
    ensures
        ({
            let rows = wrap_rows(line@, width as nat, tab as nat);
            &&& r@.len() == rows.len()
            &&& forall|k: int|
                #![trigger rows[k]]
                0 <= k < rows.len() ==> r@[k].0 == rows[k].0 && r@[k].1 == rows[k].1
        }),
{
    let n = line.len();
    let mut r: Vec<(usize, usize)> = Vec::new();
    let mut start: usize = 0;
    loop
        invariant_except_break
            wrap_rows(line@, width as nat, tab as nat) =~= r@.map_values(
                |p: (usize, usize)| (p.0 as int, p.1 as int),
            ) + wrap_rows_from(line@, start as int, width as nat, tab as nat),
        invariant
            start <= n,
            n == line@.len(),
            1 <= width <= 65535,
            1 <= tab <= 16,
        ensures
            wrap_rows(line@, width as nat, tab as nat) =~= r@.map_values(
                |p: (usize, usize)| (p.0 as int, p.1 as int),
            ),
        decreases n - start,
    {
        // Scan one greedy row starting at `start`.
        let e = row_end_exec(line, start, width, tab);
        if e >= n {
            r.push((start, n));
            proof {
                assert(wrap_rows_from(line@, start as int, width as nat, tab as nat) =~= seq![
                    (start as int, n as int),
                ]);
                assert(wrap_rows(line@, width as nat, tab as nat) =~= r@.map_values(
                    |p: (usize, usize)| (p.0 as int, p.1 as int),
                ));
            }
            break ;
        } else {
            r.push((start, e));
            proof {
                lemma_row_end_bounds(line@, start as int, 0, width as nat, tab as nat);
                assert(wrap_rows_from(line@, start as int, width as nat, tab as nat) == seq![
                    (start as int, e as int),
                ] + wrap_rows_from(line@, e as int, width as nat, tab as nat));
                assert(wrap_rows(line@, width as nat, tab as nat) =~= r@.map_values(
                    |p: (usize, usize)| (p.0 as int, p.1 as int),
                ) + wrap_rows_from(line@, e as int, width as nat, tab as nat));
            }
            start = e;
        }
    }
    r
}

/// Scans one greedy visual row starting at `start`, returning its end.
pub fn row_end_exec(line: &[u8], start: usize, width: usize, tab: usize) -> (e: usize)
    requires
        start <= line@.len(),
        1 <= width <= 65535,
        1 <= tab <= 16,
    ensures
        e == row_end_from(line@, start as int, 0, width as nat, tab as nat),
        start <= e <= line@.len(),
{
    let n = line.len();
    let mut pos: usize = start;
    let mut col: usize = 0;
    loop
        invariant
            start <= pos <= n,
            n == line@.len(),
            1 <= width <= 65535,
            1 <= tab <= 16,
            col <= width + tab,
            row_end_from(line@, start as int, 0, width as nat, tab as nat) == row_end_from(
                line@,
                pos as int,
                col as nat,
                width as nat,
                tab as nat,
            ),
        ensures
            start <= pos <= n,
            n == line@.len(),
            row_end_from(line@, start as int, 0, width as nat, tab as nat) == pos,
        decreases n - pos,
    {
        if pos >= n {
            break ;
        }
        let w = byte_width_exec(line[pos], tab);
        if col == 0 || w == 0 || (w <= width && col <= width - w) {
            col = col + w;
            pos = pos + 1;
        } else {
            assert(row_end_from(line@, pos as int, col as nat, width as nat, tab as nat)
                == pos);
            break ;
        }
    }
    pos
}

/// The exec row scan lands exactly on `row_index_of`: an index whose row
/// starts at or before `o`, with every earlier row ending at or before `o`.
pub proof fn lemma_row_index_from(rows: Seq<(int, int)>, o: int, k: int)
    requires
        rows.len() >= 1,
        0 <= k < rows.len(),
        forall|j: int| #![trigger rows[j]] 0 <= j < k ==> o >= rows[j].1,
        k == rows.len() - 1 || o < rows[k].1,
    ensures
        row_index_of(rows, o) == k,
    decreases rows.len(),
{
    if rows.len() > 1 {
        if k == 0 {
            if o >= rows[0].1 {
                assert(k == rows.len() - 1 || o < rows[k].1);
                assert(false);
            }
        } else {
            assert(o >= rows[0].1);
            let tail = rows.skip(1);
            assert(forall|j: int| #![trigger tail[j]] 0 <= j < k - 1 ==> tail[j] == rows[j + 1]);
            assert(forall|j: int| #![trigger tail[j]] 0 <= j < k - 1 ==> o >= tail[j].1);
            assert(tail[k - 1] == rows[k]);
            lemma_row_index_from(tail, o, k - 1);
        }
    }
}

/// Maps a byte offset inside one logical line to its screen cell: the index
/// of the visual row holding the offset, and the display column within that
/// row. An offset exactly at the line's end maps to the end of the final
/// row.
pub fn offset_to_screen(line: &[u8], offset: usize, width: usize, tab: usize) -> (r: (
    usize,
    usize,
))
    requires
        offset <= line@.len(),
        1 <= width <= 65535,
        1 <= tab <= 16,
    ensures
        ({
            let rows = wrap_rows(line@, width as nat, tab as nat);
            let ri = row_index_of(rows, offset as int);
            &&& r.0 == ri
            &&& r.1 == width_sum(line@, rows[ri].0, offset as int, tab as nat)
        }),
{
    proof {
        lemma_wrap_rows_structure(line@, 0, width as nat, tab as nat);
    }
    let rows = wrap_line(line, width, tab);
    let ghost rows_g = wrap_rows(line@, width as nat, tab as nat);
    let nrows = rows.len();
    let mut k: usize = 0;
    while k + 1 < nrows && offset >= rows[k].1
        invariant
            k < nrows,
            nrows == rows_g.len(),
            rows@.len() == rows_g.len(),
            forall|j: int| #![trigger rows_g[j]] 0 <= j < rows_g.len() ==> rows@[j].0 == rows_g[j].0
                && rows@[j].1 == rows_g[j].1,
            forall|j: int| #![trigger rows_g[j]] 0 <= j < k ==> offset as int >= rows_g[j].1,
        decreases nrows - k,
    {
        k = k + 1;
    }
    proof {
        lemma_row_index_from(rows_g, offset as int, k as int);
        lemma_row_index_of(rows_g, offset as int);
    }
    // Accumulate the display column from the row's start to the offset.
    let start = rows[k].0;
    let ghost row_end = rows_g[k as int].1;
    proof {
        if k as int == rows_g.len() - 1 {
            assert(offset as int <= row_end);
        }
    }
    let mut pos: usize = start;
    let mut col: usize = 0;
    while pos < offset
        invariant
            start <= pos <= offset,
            offset as int <= row_end,
            row_end <= line@.len(),
            offset <= line@.len(),
            1 <= width <= 65535,
            1 <= tab <= 16,
            row_end_from(line@, start as int, 0, width as nat, tab as nat) == row_end,
            col == width_sum(line@, start as int, pos as int, tab as nat),
            col <= width + tab,
        decreases offset - pos,
    {
        let w = byte_width_exec(line[pos], tab);
        proof {
            lemma_width_sum_snoc(line@, start as int, pos as int, tab as nat);
            lemma_row_col_bound(line@, start as int, 0, width as nat, tab as nat, pos + 1);
        }
        col = col + w;
        pos = pos + 1;
    }
    (k, col)
}

/// `width_sum` extended by one byte at the end.
pub proof fn lemma_width_sum_snoc(line: Seq<u8>, from: int, to: int, tab: nat)
    requires
        from <= to,
    ensures
        width_sum(line, from, to + 1, tab) == width_sum(line, from, to, tab) + byte_width(
            line[to],
            tab,
        ),
    decreases to - from,
{
    if from < to {
        lemma_width_sum_snoc(line, from + 1, to, tab);
    } else {
        assert(width_sum(line, to + 1, to + 1, tab) == 0);
        assert(width_sum(line, to, to + 1, tab) == byte_width(line[to], tab) + width_sum(
            line,
            to + 1,
            to + 1,
            tab,
        ));
    }
}

/// The scan behind the cell-to-offset mapping: from `p` with `acc` columns
/// used, the first character boundary (a position whose byte is not
/// zero-width, or the scan's end) at which at least `col` columns have been
/// passed.
pub open spec fn scan_col(line: Seq<u8>, p: int, end: int, acc: nat, col: int, tab: nat) -> int
    decreases end - p,
{
    if p >= end {
        end
    } else if byte_width(line[p], tab) != 0 && acc >= col {
        p
    } else {
        scan_col(line, p + 1, end, (acc + byte_width(line[p], tab)) as nat, col, tab)
    }
}

/// The byte offset a screen cell of one logical line maps to: the row index
/// clamped to the last row, then the first character boundary of that row
/// at or past the requested column, clamped to the row's end.
pub open spec fn col_to_offset(line: Seq<u8>, row: int, col: int, width: nat, tab: nat) -> int {
    let rows = wrap_rows(line, width, tab);
    let k = if 0 <= row < rows.len() {
        row
    } else {
        rows.len() - 1
    };
    scan_col(line, rows[k].0, rows[k].1, 0, col, tab)
}

/// Maps a screen cell back to a byte offset inside one logical line: the
/// inverse of `offset_to_screen`, used by mouse hit-testing and by vertical
/// movement. The row index is clamped to the line's last row; within the
/// row, the result is the first character boundary whose column is at or
/// past the requested column, or the row's end when the column lies beyond
/// the row's text.
#[verifier::rlimit(50)]
pub fn screen_to_offset(line: &[u8], row: usize, col: usize, width: usize, tab: usize) -> (r:
    usize)
    requires
        1 <= width <= 65535,
        1 <= tab <= 16,
    ensures
        r == col_to_offset(line@, row as int, col as int, width as nat, tab as nat),
        ({
            let rows = wrap_rows(line@, width as nat, tab as nat);
            let k = if row < rows.len() {
                row as int
            } else {
                rows.len() - 1
            };
            &&& rows[k].0 <= r <= rows[k].1
            &&& r == rows[k].1 || byte_width(line@[r as int], tab as nat) != 0
            &&& r == rows[k].1 || width_sum(line@, rows[k].0, r as int, tab as nat) >= col
            &&& forall|q: int|
                #![trigger line@[q]]
                rows[k].0 <= q < r && byte_width(line@[q], tab as nat) != 0 ==> width_sum(
                    line@,
                    rows[k].0,
                    q,
                    tab as nat,
                ) < col
        }),
{
    proof {
        lemma_wrap_rows_structure(line@, 0, width as nat, tab as nat);
    }
    let rows = wrap_line(line, width, tab);
    let ghost rows_g = wrap_rows(line@, width as nat, tab as nat);
    let nrows = rows.len();
    let k = if row < nrows {
        row
    } else {
        nrows - 1
    };
    let start = rows[k].0;
    let end = rows[k].1;
    proof {
        assert(0 <= k < rows_g.len());
        assert(rows@[k as int].0 == rows_g[k as int].0 && rows@[k as int].1 == rows_g[
            k as int
        ].1);
        assert(rows_g[k as int].0 <= rows_g[k as int].1);
        assert(row_end_from(line@, rows_g[k as int].0, 0, width as nat, tab as nat) == rows_g[
            k as int
        ].1);
        assert(width_sum(line@, start as int, start as int, tab as nat) == 0);
    }
    let mut pos: usize = start;
    let mut acc: usize = 0;
    loop
        invariant
            start <= pos <= end,
            end <= line@.len(),
            1 <= width <= 65535,
            1 <= tab <= 16,
            end == rows_g[k as int].1,
            start == rows_g[k as int].0,
            0 <= k < rows_g.len(),
            rows_g == wrap_rows(line@, width as nat, tab as nat),
            row_end_from(line@, start as int, 0, width as nat, tab as nat) == end,
            acc == width_sum(line@, start as int, pos as int, tab as nat),
            acc <= width + tab,
            scan_col(line@, start as int, end as int, 0, col as int, tab as nat) == scan_col(
                line@,
                pos as int,
                end as int,
                acc as nat,
                col as int,
                tab as nat,
            ),
            forall|q: int|
                #![trigger line@[q]]
                start <= q < pos && byte_width(line@[q], tab as nat) != 0 ==> width_sum(
                    line@,
                    start as int,
                    q,
                    tab as nat,
                ) < col,
        ensures
            start <= pos <= end,
            pos == scan_col(line@, start as int, end as int, 0, col as int, tab as nat),
            pos == end || byte_width(line@[pos as int], tab as nat) != 0,
            pos == end || width_sum(line@, start as int, pos as int, tab as nat) >= col,
            forall|q: int|
                #![trigger line@[q]]
                start <= q < pos && byte_width(line@[q], tab as nat) != 0 ==> width_sum(
                    line@,
                    start as int,
                    q,
                    tab as nat,
                ) < col,
        decreases end - pos,
    {
        if pos >= end {
            proof {
                assert(scan_col(line@, pos as int, end as int, acc as nat, col as int, tab as nat)
                    == end);
            }
            break ;
        }
        let w = byte_width_exec(line[pos], tab);
        if w != 0 && acc >= col {
            proof {
                assert(scan_col(line@, pos as int, end as int, acc as nat, col as int, tab as nat)
                    == pos);
            }
            break ;
        }
        proof {
            lemma_width_sum_snoc(line@, start as int, pos as int, tab as nat);
            lemma_row_col_bound(line@, start as int, 0, width as nat, tab as nat, pos + 1);
        }
        acc = acc + w;
        pos = pos + 1;
    }
    pos
}

/// Start of the logical line containing offset `o`: the offset just past the
/// previous line terminator, or 0 on the first line.
pub open spec fn line_start_of(s: Seq<u8>, o: int) -> int
    decreases o,
{
    if o <= 0 {
        0
    } else if s[o - 1] == 10 {
        o
    } else {
        line_start_of(s, o - 1)
    }
}

/// End of the logical line containing offset `o`: the offset of the next
/// line terminator, or the buffer's end.
pub open spec fn line_end_of(s: Seq<u8>, o: int) -> int
    decreases s.len() - o,
{
    if o >= s.len() {
        s.len() as int
    } else if s[o] == 10 {
        o
    } else {
        line_end_of(s, o + 1)
    }
}

/// `line_start_of` lands at or before `o`, on a line boundary, with no
/// terminator in between.
pub proof fn lemma_line_start_of(s: Seq<u8>, o: int)
    requires
        0 <= o <= s.len(),
    ensures
        0 <= line_start_of(s, o) <= o,
        line_start_of(s, o) == 0 || s[line_start_of(s, o) - 1] == 10,
        forall|q: int| line_start_of(s, o) <= q < o ==> s[q] != 10,
    decreases o,
{
    if o > 0 && s[o - 1] != 10 {
        lemma_line_start_of(s, o - 1);
    }
}

/// `line_end_of` lands at or after `o`, on a terminator or the buffer's end,
/// with no terminator in between.
pub proof fn lemma_line_end_of(s: Seq<u8>, o: int)
    requires
        0 <= o <= s.len(),
    ensures
        o <= line_end_of(s, o) <= s.len(),
        line_end_of(s, o) == s.len() || s[line_end_of(s, o)] == 10,
        forall|q: int| o <= q < line_end_of(s, o) ==> s[q] != 10,
    decreases s.len() - o,
{
    if o < s.len() && s[o] != 10 {
        lemma_line_end_of(s, o + 1);
    }
}

/// Finds the start of the logical line containing `o`.
pub fn line_start_exec(text: &[u8], o: usize) -> (r: usize)
    requires
        o <= text@.len(),
    ensures
        r == line_start_of(text@, o as int),
        r <= o,
{
    let mut p: usize = o;
    while p > 0 && text[p - 1] != 10
        invariant
            p <= o <= text@.len(),
            line_start_of(text@, o as int) == line_start_of(text@, p as int),
        decreases p,
    {
        p = p - 1;
    }
    p
}

/// Finds the end of the logical line containing `o`.
pub fn line_end_exec(text: &[u8], o: usize) -> (r: usize)
    requires
        o <= text@.len(),
    ensures
        r == line_end_of(text@, o as int),
        o <= r <= text@.len(),
{
    let n = text.len();
    let mut p: usize = o;
    while p < n && text[p] != 10
        invariant
            o <= p <= n,
            n == text@.len(),
            line_end_of(text@, o as int) == line_end_of(text@, p as int),
        decreases n - p,
    {
        p = p + 1;
    }
    p
}

/// Number of line terminators before offset `to`: the zero-based index of
/// the logical line containing `to`.
pub open spec fn newline_count(s: Seq<u8>, to: int) -> nat
    decreases to,
{
    if to <= 0 {
        0
    } else if s[to - 1] == 10 {
        newline_count(s, to - 1) + 1
    } else {
        newline_count(s, to - 1)
    }
}

/// Counts the line terminators before offset `o`.
pub fn line_index_of(text: &[u8], o: usize) -> (r: usize)
    requires
        o <= text@.len(),
    ensures
        r == newline_count(text@, o as int),
{
    let mut count: usize = 0;
    let mut p: usize = 0;
    while p < o
        invariant
            p <= o <= text@.len(),
            count == newline_count(text@, p as int),
            count <= p,
        decreases o - p,
    {
        if text[p] == 10 {
            count = count + 1;
        }
        p = p + 1;
    }
    count
}

/// Line starts are monotone in the offset.
pub proof fn lemma_line_start_monotone(s: Seq<u8>, o1: int, o2: int)
    requires
        0 <= o1 <= o2 <= s.len(),
    ensures
        line_start_of(s, o1) <= line_start_of(s, o2),
    decreases o2,
{
    lemma_line_start_of(s, o1);
    if o2 > o1 {
        if s[o2 - 1] == 10 {
            lemma_line_start_of(s, o1);
        } else {
            lemma_line_start_monotone(s, o1, o2 - 1);
        }
    }
}

/// Line ends are monotone in the offset.
pub proof fn lemma_line_end_monotone(s: Seq<u8>, o1: int, o2: int)
    requires
        0 <= o1 <= o2 <= s.len(),
    ensures
        line_end_of(s, o1) <= line_end_of(s, o2),
    decreases s.len() - o1,
{
    lemma_line_end_of(s, o2);
    if o1 < o2 {
        if o1 < s.len() && s[o1] != 10 {
            lemma_line_end_monotone(s, o1 + 1, o2);
        }
    }
}

} // verus!
