//! A bounded-lookahead two-dimensional text canvas.  Writes may arrive out of
//! row order; rows below the flush horizon are already final and further
//! writes to them are dropped.  Flushing moves finished rows, in order, to the
//! emitted list, which models the output sink.

use vstd::prelude::*;
use crate::util::{line_views, spec_lines, split_lines};

verus! {

/// A row/column target of a write, in character cells.
#[derive(Debug, Clone, Copy)]
pub struct LinePosition {
    row: usize,
    col: usize,
}

impl LinePosition {
    pub closed spec fn spec_row(&self) -> int {
        self.row as int
    }

    pub closed spec fn spec_col(&self) -> int {
        self.col as int
    }

    /// Builds a position from coordinate-width values.
    pub fn new(row: u32, col: u32) -> (r: LinePosition)
        ensures
            r.spec_row() == row && r.spec_col() == col,
    {
        LinePosition { row: row as usize, col: col as usize }
    }

    pub fn from_usize(row: usize, col: usize) -> (r: LinePosition)
        ensures
            r.spec_row() == row && r.spec_col() == col,
    {
        LinePosition { row, col }
    }
}

/// The mathematical state of a [`LineBuffer`]: the rows already handed to the
/// sink, in order, and the pending rows above the flush horizon.  Row `i` of
/// the whole canvas is `emitted[i]` when `i < emitted.len()`, else
/// `pending[i - emitted.len()]`.
#[verifier::ext_equal]
pub struct BufModel {
    pub emitted: Seq<Seq<char>>,
    pub pending: Seq<Seq<char>>,
}

/// `n` spaces.
pub open spec fn spaces(n: int) -> Seq<char> {
    Seq::new(n as nat, |i: int| ' ')
}

/// Overlay `text` onto `ctx` starting at column `col`: the prefix of `ctx`
/// before `col` is kept (padded with spaces when `ctx` is shorter), `text`
/// replaces the covered span, and whatever of `ctx` lies beyond the span is
/// kept.
pub open spec fn spec_splice(ctx: Seq<char>, col: int, text: Seq<char>) -> Seq<char> {
    if ctx.len() <= col {
        ctx + spaces(col - ctx.len()) + text
    } else {
        ctx.take(col) + text + if col + text.len() < ctx.len() {
            ctx.skip(col + text.len())
        } else {
            Seq::empty()
        }
    }
}

/// A pending row list grown with empty rows so that index `idx` exists.
pub open spec fn grow_pending(pending: Seq<Seq<char>>, idx: int) -> Seq<Seq<char>> {
    if idx < pending.len() {
        pending
    } else {
        pending + Seq::new((idx + 1 - pending.len()) as nat, |i: int| Seq::<char>::empty())
    }
}

/// One single-line write: a no-op below the flush horizon, otherwise an
/// overlay into the (grown) pending row.
pub open spec fn spec_write_line(m: BufModel, row: int, col: int, text: Seq<char>) -> BufModel {
    if row < m.emitted.len() {
        m
    } else {
        let idx = row - m.emitted.len();
        let grown = grow_pending(m.pending, idx);
        BufModel { emitted: m.emitted, pending: grown.update(idx, spec_splice(grown[idx], col, text)) }
    }
}

/// A multi-line write: line `i` of the block lands on row `row + i`.
pub open spec fn spec_write_lines(m: BufModel, row: int, col: int, lines: Seq<Seq<char>>) -> BufModel
    decreases lines.len(),
{
    if lines.len() == 0 {
        m
    } else {
        spec_write_lines(spec_write_line(m, row, col, lines[0]), row + 1, col, lines.drop_first())
    }
}

/// Emit every pending row whose absolute index is below `rows`; never emits
/// more than is pending, and a horizon at or below the current one is a no-op.
pub open spec fn spec_flush(m: BufModel, rows: int) -> BufModel {
    if rows <= m.emitted.len() {
        m
    } else {
        let k = if rows - m.emitted.len() <= m.pending.len() {
            rows - m.emitted.len()
        } else {
            m.pending.len() as int
        };
        BufModel { emitted: m.emitted + m.pending.take(k), pending: m.pending.skip(k) }
    }
}

/// Emit every pending row.
pub open spec fn spec_flush_all(m: BufModel) -> BufModel {
    BufModel { emitted: m.emitted + m.pending, pending: Seq::empty() }
}

/// The canvas.  `emitted` models the output sink: the rows already final, in
/// the order they were handed over.  `lines` are the pending rows, indexed
/// relative to the flush horizon.
pub struct LineBuffer {
    emitted: Vec<String>,
    lines: Vec<String>,
}

impl View for LineBuffer {
    type V = BufModel;

    closed spec fn view(&self) -> BufModel {
        BufModel { emitted: line_views(self.emitted@), pending: line_views(self.lines@) }
    }
}

/// Overlays `text_line` onto `context_line` at column `pos`, counting
/// character cells.
fn write_into_line(context_line: &str, pos: usize, text_line: &str) -> (r: String)
    ensures
        r@ == spec_splice(context_line@, pos as int, text_line@),
{
    let ctx_len = context_line.unicode_len();
    let text_len = text_line.unicode_len();
    if ctx_len <= pos {
        let mut result = context_line.to_owned();
        let mut k = ctx_len;
        while k < pos
            invariant
                ctx_len <= k <= pos,
                result@ == context_line@ + spaces(k - ctx_len),
            decreases pos - k,
        {
            result.append(" ");
            proof {
                reveal_strlit(" ");
                assert((context_line@ + spaces(k - ctx_len)) + " "@ =~= context_line@ + spaces(
                    k + 1 - ctx_len,
                ));
            }
            k += 1;
        }
        result.append(text_line);
        proof {
            assert(context_line@ + spaces(0) =~= context_line@);
        }
        result
    } else {
        let mut result = context_line.substring_char(0, pos).to_owned();
        result.append(text_line);
        if ctx_len - pos > text_len {
            result.append(context_line.substring_char(pos + text_len, ctx_len));
            proof {
                assert(context_line@.subrange(0, pos as int) =~= context_line@.take(pos as int));
                assert(context_line@.subrange(pos + text_len, ctx_len as int) =~= context_line@.skip(
                    pos + text_line@.len(),
                ));
            }
        } else {
            proof {
                assert(context_line@.subrange(0, pos as int) =~= context_line@.take(pos as int));
                assert(context_line@.take(pos as int) + text_line@ + Seq::<char>::empty()
                    =~= context_line@.take(pos as int) + text_line@);
            }
        }
        result
    }
}

impl LineBuffer {
    /// A fresh canvas: nothing emitted, nothing pending.
    pub fn new() -> (r: LineBuffer)
        ensures
            r@.emitted =~= Seq::<Seq<char>>::empty(),
            r@.pending =~= Seq::<Seq<char>>::empty(),
    {
        let r = LineBuffer { emitted: Vec::new(), lines: Vec::new() };
        proof {
            assert(line_views(r.emitted@) =~= Seq::<Seq<char>>::empty());
            assert(line_views(r.lines@) =~= Seq::<Seq<char>>::empty());
        }
        r
    }

    /// Number of rows already emitted: the flush horizon.
    pub fn flushed_row_count(&self) -> (r: usize)
        ensures
            r == self@.emitted.len(),
    {
        self.emitted.len()
    }

    /// The rows already handed to the sink, in row order.
    pub fn emitted_rows(&self) -> (r: &Vec<String>)
        ensures
            line_views(r@) == self@.emitted,
    {
        &self.emitted
    }

    /// Hands the emitted rows over, consuming the buffer.
    pub fn take_emitted(self) -> (r: Vec<String>)
        ensures
            line_views(r@) == self@.emitted,
    {
        self.emitted
    }

    /// The rows still pending above the flush horizon.
    pub fn pending_rows(&self) -> (r: &Vec<String>)
        ensures
            line_views(r@) == self@.pending,
    {
        &self.lines
    }

    /// Writes one line; a row below the flush horizon is left untouched.
    fn write_line(&mut self, row: usize, col: usize, text_line: &str)
        requires
            row < usize::MAX,
        ensures
            final(self)@ == spec_write_line(old(self)@, row as int, col as int, text_line@),
    {
        if row < self.emitted.len() {
            return;
        }
        let line_index = row - self.emitted.len();
        let ghost pending0 = self@.pending;
        let need: usize = if self.lines.len() <= line_index {
            line_index + 1 - self.lines.len()
        } else {
            0
        };
        let mut pushed: usize = 0;
        proof {
            assert(line_views(self.lines@) =~= pending0 + Seq::new(
                0nat,
                |i: int| Seq::<char>::empty(),
            ));
        }
        while pushed < need
            invariant
                pushed <= need,
                self.emitted@ == old(self).emitted@,
                line_views(self.lines@) == pending0 + Seq::new(
                    pushed as nat,
                    |i: int| Seq::<char>::empty(),
                ),
            decreases need - pushed,
        {
            let ghost before = self.lines@;
            let empty_row = String::new();
            proof {
                assert(line_views(before.push(empty_row)) =~= line_views(before) + seq![
                    empty_row@,
                ]);
                assert((pending0 + Seq::new(pushed as nat, |i: int| Seq::<char>::empty())) + seq![
                    Seq::<char>::empty(),
                ] =~= pending0 + Seq::new((pushed + 1) as nat, |i: int| Seq::<char>::empty()));
            }
            self.lines.push(empty_row);
            pushed += 1;
        }
        proof {
            let grown = grow_pending(pending0, line_index as int);
            assert(line_views(self.lines@) =~= grown);
        }
        let new_line = write_into_line(self.lines[line_index].as_str(), col, text_line);
        self.lines[line_index] = new_line;
        proof {
            let grown = grow_pending(pending0, line_index as int);
            assert(line_views(self.lines@) =~= grown.update(
                line_index as int,
                spec_splice(grown[line_index as int], col as int, text_line@),
            ));
        }
    }

    /// Writes a text block: its lines land on consecutive rows starting at
    /// `pos`, each overlaid at the same column.
    pub fn write(&mut self, pos: LinePosition, text: &str)
        requires
            pos.spec_row() + spec_lines(text@).len() <= usize::MAX,
        ensures
            final(self)@ == spec_write_lines(
                old(self)@,
                pos.spec_row(),
                pos.spec_col(),
                spec_lines(text@),
            ),
    {
        let text_lines = split_lines(text);
        let ghost all = spec_lines(text@);
        let mut i: usize = 0;
        proof {
            assert(all.skip(0) =~= all);
        }
        while i < text_lines.len()
            invariant
                i <= text_lines@.len(),
                line_views(text_lines@) == all,
                pos.spec_row() + all.len() <= usize::MAX,
                spec_write_lines(old(self)@, pos.spec_row(), pos.spec_col(), all)
                    == spec_write_lines(self@, pos.spec_row() + i, pos.spec_col(), all.skip(i as int)),
            decreases text_lines@.len() - i,
        {
            proof {
                assert(all.skip(i as int)[0] == text_lines@[i as int]@);
                assert(all.skip(i as int).drop_first() =~= all.skip(i + 1));
            }
            self.write_line(pos.row + i, pos.col, text_lines[i].as_str());
            i += 1;
        }
        proof {
            assert(all.skip(text_lines@.len() as int) =~= Seq::<Seq<char>>::empty());
        }
    }

    /// Emits and discards every pending row whose absolute row index is below
    /// `rows`; a horizon at or below the current one changes nothing.
    pub fn flush(&mut self, rows: usize)
        ensures
            final(self)@ == spec_flush(old(self)@, rows as int),
    {
        if rows <= self.emitted.len() {
            return;
        }
        let delete_line_count = if rows - self.emitted.len() <= self.lines.len() {
            rows - self.emitted.len()
        } else {
            self.lines.len()
        };
        let ghost m0 = self@;
        let ghost k = delete_line_count as int;
        let mut i: usize = 0;
        while i < delete_line_count
            invariant
                i <= delete_line_count,
                delete_line_count <= self.lines@.len(),
                self.lines@ == old(self).lines@,
                line_views(self.emitted@) == m0.emitted + m0.pending.take(i as int),
                line_views(self.lines@) == m0.pending,
            decreases delete_line_count - i,
        {
            let row = self.lines[i].clone();
            proof {
                assert(line_views(self.emitted@.push(row)) =~= line_views(self.emitted@) + seq![
                    row@,
                ]);
                assert((m0.emitted + m0.pending.take(i as int)) + seq![m0.pending[i as int]]
                    =~= m0.emitted + m0.pending.take(i + 1));
            }
            self.emitted.push(row);
            i += 1;
        }
        let mut rest: Vec<String> = Vec::new();
        let mut j: usize = delete_line_count;
        proof {
            assert(line_views(rest@) =~= m0.pending.subrange(k, k));
        }
        while j < self.lines.len()
            invariant
                delete_line_count <= j <= self.lines@.len(),
                self.lines@ == old(self).lines@,
                line_views(self.lines@) == m0.pending,
                k == delete_line_count as int,
                line_views(rest@) == m0.pending.subrange(k, j as int),
            decreases self.lines@.len() - j,
        {
            let row = self.lines[j].clone();
            proof {
                assert(line_views(rest@.push(row)) =~= line_views(rest@) + seq![row@]);
                assert(m0.pending.subrange(k, j as int) + seq![m0.pending[j as int]]
                    =~= m0.pending.subrange(k, j + 1));
            }
            rest.push(row);
            j += 1;
        }
        self.lines = rest;
        proof {
            assert(m0.pending.subrange(k, m0.pending.len() as int) =~= m0.pending.skip(k));
        }
    }

    /// Emits every pending row.
    pub fn flush_all(&mut self)
        ensures
            final(self)@ == spec_flush_all(old(self)@),
    {
        let pending = self.lines.len();
        let ghost m0 = self@;
        let mut i: usize = 0;
        while i < pending
            invariant
                i <= pending,
                pending == self.lines@.len(),
                self.lines@ == old(self).lines@,
                line_views(self.emitted@) == m0.emitted + m0.pending.take(i as int),
                line_views(self.lines@) == m0.pending,
            decreases pending - i,
        {
            let row = self.lines[i].clone();
            proof {
                assert(line_views(self.emitted@.push(row)) =~= line_views(self.emitted@) + seq![
                    row@,
                ]);
                assert((m0.emitted + m0.pending.take(i as int)) + seq![m0.pending[i as int]]
                    =~= m0.emitted + m0.pending.take(i + 1));
            }
            self.emitted.push(row);
            i += 1;
        }
        self.lines.clear();
        proof {
            assert(m0.pending.take(m0.pending.len() as int) =~= m0.pending);
            assert(line_views(self.lines@) =~= Seq::<Seq<char>>::empty());
        }
    }
}


/// Flushing moves the horizon, never a row: the canvas as a whole is
/// unchanged, a horizon at or below the current one does nothing, and one
/// within the pending rows lands exactly where asked.
pub proof fn lemma_flush_preserves_rows(m: BufModel, rows: int)
    ensures
        spec_flush(m, rows).emitted + spec_flush(m, rows).pending == m.emitted + m.pending,
        rows <= m.emitted.len() ==> spec_flush(m, rows) == m,
        m.emitted.len() < rows && rows <= m.emitted.len() + m.pending.len() ==> spec_flush(
            m,
            rows,
        ).emitted.len() == rows,
        spec_flush(m, rows).emitted.len() >= m.emitted.len(),
{
    if rows <= m.emitted.len() {
        assert(spec_flush(m, rows).emitted + spec_flush(m, rows).pending =~= m.emitted
            + m.pending);
    } else {
        let k = if rows - m.emitted.len() <= m.pending.len() {
            rows - m.emitted.len()
        } else {
            m.pending.len() as int
        };
        assert((m.emitted + m.pending.take(k)) + m.pending.skip(k) =~= m.emitted + m.pending);
    }
}


/// Number of rows the canvas holds, emitted and pending together.
pub open spec fn canvas_len(m: BufModel) -> int {
    m.emitted.len() + m.pending.len() as int
}

/// The larger of two values.
pub open spec fn spec_max(a: int, b: int) -> int {
    if a >= b {
        a
    } else {
        b
    }
}

/// A single-line write extends the canvas exactly to its row, or not at all.
pub proof fn lemma_write_line_len(m: BufModel, row: int, col: int, text: Seq<char>)
    requires
        row >= 0,
    ensures
        canvas_len(spec_write_line(m, row, col, text)) == spec_max(canvas_len(m), row + 1),
        spec_write_line(m, row, col, text).emitted == m.emitted,
{
    if row >= m.emitted.len() {
        let idx = row - m.emitted.len();
        if idx >= m.pending.len() {
            assert(grow_pending(m.pending, idx).len() == idx + 1);
        }
    }
}

/// A block write extends the canvas exactly to its last row, or not at all.
pub proof fn lemma_write_lines_len(m: BufModel, row: int, col: int, lines: Seq<Seq<char>>)
    requires
        row >= 0,
    ensures
        canvas_len(spec_write_lines(m, row, col, lines)) == (if lines.len() == 0 {
            canvas_len(m)
        } else {
            spec_max(canvas_len(m), row + lines.len())
        }),
        spec_write_lines(m, row, col, lines).emitted == m.emitted,
    decreases lines.len(),
{
    if lines.len() > 0 {
        lemma_write_line_len(m, row, col, lines[0]);
        lemma_write_lines_len(
            spec_write_line(m, row, col, lines[0]),
            row + 1,
            col,
            lines.drop_first(),
        );
    }
}

/// A single-line write at the first free row appends exactly one row.
pub proof fn lemma_write_lines_appends(m: BufModel, row: int, col: int, lines: Seq<Seq<char>>)
    requires
        row == canvas_len(m),
    ensures
        canvas_len(spec_write_lines(m, row, col, lines)) == row + lines.len(),
        spec_write_lines(m, row, col, lines).emitted == m.emitted,
    decreases lines.len(),
{
    if lines.len() > 0 {
        lemma_write_line_len(m, row, col, lines[0]);
        lemma_write_lines_appends(
            spec_write_line(m, row, col, lines[0]),
            row + 1,
            col,
            lines.drop_first(),
        );
    }
}

/// Emitting rows moves none: the canvas keeps its length.
pub proof fn lemma_flush_len(m: BufModel, rows: int)
    ensures
        canvas_len(spec_flush(m, rows)) == canvas_len(m),
        canvas_len(spec_flush_all(m)) == canvas_len(m),
        spec_flush_all(m).emitted.len() == canvas_len(m),
{
}

} // verus!
