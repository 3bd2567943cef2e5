//! Screen snapshots, dirty-rectangle diffing and refresh scheduling.

use vstd::prelude::*;

use crate::clock::{elapsed_between, Duration, Instant};

verus! {

/// A terminal color as reported by the screen parser.
#[derive(Debug, Clone, Copy, PartialEq, Eq, Structural)]
pub enum TerminalColor {
    Default,
    Indexed(u8),
    Rgb(u8, u8, u8),
}

impl Default for TerminalColor {
    fn default() -> (r: Self)
        ensures
            r == TerminalColor::Default,
    {
        TerminalColor::Default
    }
}

/// One terminal cell as it is drawn: its text and attributes.
#[derive(Debug, Clone, PartialEq, Eq)]
pub struct RenderCell {
    pub text: String,
    pub bold: bool,
    pub underline: bool,
    pub inverse: bool,
    pub foreground: TerminalColor,
    pub background: TerminalColor,
}

/// Two cells draw the same: same text and same attributes.
pub open spec fn same_cell(a: RenderCell, b: RenderCell) -> bool {
    &&& a.text@ == b.text@
    &&& a.bold == b.bold
    &&& a.underline == b.underline
    &&& a.inverse == b.inverse
    &&& a.foreground == b.foreground
    &&& a.background == b.background
}

/// Compares two cells by text and attributes.
pub fn cells_equal(a: &RenderCell, b: &RenderCell) -> (r: bool)
    ensures
        r == same_cell(*a, *b),
{
    a.text == b.text && a.bold == b.bold && a.underline == b.underline && a.inverse == b.inverse
        && a.foreground == b.foreground && a.background == b.background
}

/// The whole visible screen: a `rows` x `columns` grid of cells in
/// row-major order, and the cursor.
#[derive(Debug, Clone, PartialEq, Eq)]
pub struct RenderSnapshot {
    pub rows: u16,
    pub columns: u16,
    pub cells: Vec<RenderCell>,
    pub cursor_row: u16,
    pub cursor_column: u16,
    pub cursor_visible: bool,
    pub alternate_screen: bool,
}

impl RenderSnapshot {
    /// The grid holds exactly `rows * columns` cells.
    pub open spec fn wf(&self) -> bool {
        self.cells.len() == self.rows * self.columns
    }

    /// The grid holds at least `rows * columns` cells.
    pub open spec fn has_grid(&self) -> bool {
        self.cells.len() >= self.rows * self.columns
    }
}

/// A rectangle of terminal cells that needs to be redrawn.
#[derive(Debug, Clone, Copy, PartialEq, Eq, Structural)]
pub struct DirtyRect {
    pub x: u16,
    pub y: u16,
    pub width: u16,
    pub height: u16,
}

/// Whether `r` can absorb `next` by growing one row downwards.
pub open spec fn extends_below(r: DirtyRect, next: DirtyRect) -> bool {
    &&& r.x == next.x
    &&& r.width == next.width
    &&& r.y + r.height == next.y
    &&& next.height == 1
}

/// Appending a rectangle to a list: merged into the last one when it
/// continues that one by exactly one row, pushed otherwise.
pub open spec fn append_rect(rects: Seq<DirtyRect>, rect: DirtyRect) -> Seq<DirtyRect> {
    if rects.len() > 0 && extends_below(rects.last(), rect) {
        rects.update(
            rects.len() - 1,
            DirtyRect { height: (rects.last().height + 1) as u16, ..rects.last() },
        )
    } else {
        rects.push(rect)
    }
}

/// Appending every rectangle of `rs`, in order, to `acc`.
pub open spec fn append_all(acc: Seq<DirtyRect>, rs: Seq<DirtyRect>) -> Seq<DirtyRect>
    decreases rs.len(),
{
    if rs.len() == 0 {
        acc
    } else {
        append_all(append_rect(acc, rs[0]), rs.drop_first())
    }
}

/// Whether a rectangle covers the cell at column `x`, row `y`.
pub open spec fn rect_covers(r: DirtyRect, x: int, y: int) -> bool {
    r.x <= x < r.x + r.width && r.y <= y < r.y + r.height
}

/// Whether some rectangle of the list covers the cell at column `x`, row `y`.
pub open spec fn covers(rects: Seq<DirtyRect>, x: int, y: int) -> bool {
    exists|i: int| 0 <= i < rects.len() && rect_covers(#[trigger] rects[i], x, y)
}

/// The bottom edge of every rectangle fits in a `u16`.
pub open spec fn bottoms_fit(rects: Seq<DirtyRect>) -> bool {
    forall|i: int| 0 <= i < rects.len() ==> #[trigger] rects[i].y + rects[i].height <= u16::MAX
}

impl DirtyRect {
    /// The rectangle that covers a whole `columns` x `rows` grid.
    pub fn full(columns: u16, rows: u16) -> (r: Self)
        ensures
            r == (DirtyRect { x: 0, y: 0, width: columns, height: rows }),
    {
        DirtyRect { x: 0, y: 0, width: columns, height: rows }
    }
}

/// The cell at column `column` of row `row` differs between the snapshots.
pub open spec fn cell_changed(prev: RenderSnapshot, next: RenderSnapshot, row: int, column: int) -> bool {
    !same_cell(prev.cells@[row * next.columns + column], next.cells@[row * next.columns + column])
}

/// The maximal runs of changed cells of one row, left to right, each as a
/// one-row rectangle. The scan stands at column `column`; `start` is the
/// first column of the run that is open there, if any.
pub open spec fn row_runs(
    prev: RenderSnapshot,
    next: RenderSnapshot,
    row: int,
    column: int,
    start: Option<int>,
) -> Seq<DirtyRect>
    decreases next.columns - column,
{
    if column >= next.columns {
        match start {
            Some(left) => seq![
                DirtyRect {
                    x: left as u16,
                    y: row as u16,
                    width: (next.columns - left) as u16,
                    height: 1,
                },
            ],
            None => seq![],
        }
    } else if cell_changed(prev, next, row, column) {
        row_runs(
            prev,
            next,
            row,
            column + 1,
            match start {
                Some(left) => Some(left),
                None => Some(column),
            },
        )
    } else {
        match start {
            Some(left) => seq![
                DirtyRect { x: left as u16, y: row as u16, width: (column - left) as u16, height: 1 },
            ] + row_runs(prev, next, row, column + 1, None),
            None => row_runs(prev, next, row, column + 1, None),
        }
    }
}

/// The rectangles for the first `rows` rows: the runs of each row appended
/// in turn, so that equal runs of adjacent rows merge.
pub open spec fn diff_rows(prev: RenderSnapshot, next: RenderSnapshot, rows: int) -> Seq<DirtyRect>
    decreases rows,
{
    if rows <= 0 {
        seq![]
    } else {
        append_all(diff_rows(prev, next, rows - 1), row_runs(prev, next, rows - 1, 0, None))
    }
}

/// What redrawing takes from `prev` to `next`: the whole grid when its size
/// changed, the merged runs of changed cells otherwise.
pub open spec fn diff_spec(prev: RenderSnapshot, next: RenderSnapshot) -> Seq<DirtyRect> {
    if prev.rows != next.rows || prev.columns != next.columns {
        seq![DirtyRect { x: 0, y: 0, width: next.columns, height: next.rows }]
    } else {
        diff_rows(prev, next, next.rows as int)
    }
}

/// Every rectangle ends at or above row `bottom`.
pub open spec fn bottoms_at_most(rects: Seq<DirtyRect>, bottom: int) -> bool {
    forall|i: int| 0 <= i < rects.len() ==> #[trigger] rects[i].y + rects[i].height <= bottom
}

proof fn lemma_append_all_step(acc: Seq<DirtyRect>, r: DirtyRect, rest: Seq<DirtyRect>)
    ensures
        append_all(acc, seq![r] + rest) == append_all(append_rect(acc, r), rest),
        append_all(acc, seq![]) == acc,
{
    let s = seq![r] + rest;
    assert(s.drop_first() =~= rest);
    assert(s[0] == r);
}

proof fn lemma_append_bottoms(rects: Seq<DirtyRect>, rect: DirtyRect, bottom: int)
    requires
        bottoms_at_most(rects, bottom),
        rect.y + rect.height <= bottom,
    ensures
        bottoms_at_most(append_rect(rects, rect), bottom),
{
    let r = append_rect(rects, rect);
    assert forall|i: int| 0 <= i < r.len() implies #[trigger] r[i].y + r[i].height <= bottom by {
        if rects.len() > 0 && extends_below(rects.last(), rect) && i == rects.len() - 1 {
        } else if i < rects.len() {
        }
    }
}

proof fn lemma_append_rect_covers(rects: Seq<DirtyRect>, rect: DirtyRect, x: int, y: int)
    requires
        rect.y + rect.height <= u16::MAX,
    ensures
        covers(append_rect(rects, rect), x, y) == (covers(rects, x, y) || rect_covers(rect, x, y)),
{
    let r = append_rect(rects, rect);
    if rects.len() > 0 && extends_below(rects.last(), rect) {
        let n = rects.len() - 1;
        if covers(r, x, y) {
            let i = choose|i: int| 0 <= i < r.len() && rect_covers(#[trigger] r[i], x, y);
            if i != n {
                assert(rect_covers(rects[i], x, y));
            } else if !rect_covers(rects[n], x, y) {
                assert(rect_covers(rect, x, y));
            }
        }
        if covers(rects, x, y) {
            let i = choose|i: int| 0 <= i < rects.len() && rect_covers(#[trigger] rects[i], x, y);
            assert(rect_covers(r[i], x, y));
        }
        if rect_covers(rect, x, y) {
            assert(rect_covers(r[n], x, y));
        }
    } else {
        if covers(r, x, y) {
            let i = choose|i: int| 0 <= i < r.len() && rect_covers(#[trigger] r[i], x, y);
            if i < rects.len() {
                assert(rect_covers(rects[i], x, y));
            }
        }
        if covers(rects, x, y) {
            let i = choose|i: int| 0 <= i < rects.len() && rect_covers(#[trigger] rects[i], x, y);
            assert(rect_covers(r[i], x, y));
        }
        if rect_covers(rect, x, y) {
            assert(rect_covers(r[rects.len() as int], x, y));
        }
    }
}

/// Appending rectangles one by one covers exactly what the list and the
/// appended rectangles covered.
pub proof fn lemma_append_all_covers(acc: Seq<DirtyRect>, rs: Seq<DirtyRect>, x: int, y: int)
    requires
        bottoms_fit(rs),
    ensures
        covers(append_all(acc, rs), x, y) == (covers(acc, x, y) || covers(rs, x, y)),
    decreases rs.len(),
{
    if rs.len() > 0 {
        lemma_append_rect_covers(acc, rs[0], x, y);
        let rest = rs.drop_first();
        assert(bottoms_fit(rest)) by {
            assert forall|i: int| 0 <= i < rest.len() implies #[trigger] rest[i].y + rest[i].height
                <= u16::MAX by {
                assert(rest[i] == rs[i + 1]);
            }
        }
        lemma_append_all_covers(append_rect(acc, rs[0]), rest, x, y);
        if covers(rest, x, y) {
            let i = choose|i: int| 0 <= i < rest.len() && rect_covers(#[trigger] rest[i], x, y);
            assert(rect_covers(rs[i + 1], x, y));
        }
        if covers(rs, x, y) {
            let i = choose|i: int| 0 <= i < rs.len() && rect_covers(#[trigger] rs[i], x, y);
            if i > 0 {
                assert(rect_covers(rest[i - 1], x, y));
            }
        }
    } else {
        assert(!covers(rs, x, y));
    }
}

proof fn lemma_row_runs_covers(
    prev: RenderSnapshot,
    next: RenderSnapshot,
    row: int,
    column: int,
    start: Option<int>,
    x: int,
    y: int,
)
    requires
        0 <= row < next.rows,
        0 <= column <= next.columns,
        start matches Some(left) ==> 0 <= left < column,
    ensures
        covers(row_runs(prev, next, row, column, start), x, y) <==> y == row && ((start matches Some(
            left,
        ) && left <= x < column) || (column <= x < next.columns && cell_changed(prev, next, row, x))),
        forall|i: int|
            0 <= i < row_runs(prev, next, row, column, start).len() ==> (#[trigger] row_runs(
                prev,
                next,
                row,
                column,
                start,
            )[i]).y == row && row_runs(prev, next, row, column, start)[i].height == 1,
    decreases next.columns - column,
{
    let rr = row_runs(prev, next, row, column, start);
    if column >= next.columns {
        match start {
            Some(left) => {
                if covers(rr, x, y) {
                    let i = choose|i: int| 0 <= i < rr.len() && rect_covers(#[trigger] rr[i], x, y);
                    assert(i == 0);
                }
                if y == row && left <= x < column {
                    assert(rect_covers(rr[0], x, y));
                }
            },
            None => {
                assert(!covers(rr, x, y));
            },
        }
    } else if cell_changed(prev, next, row, column) {
        let s2 = match start {
            Some(left) => Some(left),
            None => Some(column),
        };
        lemma_row_runs_covers(prev, next, row, column + 1, s2, x, y);
    } else {
        lemma_row_runs_covers(prev, next, row, column + 1, None, x, y);
        match start {
            Some(left) => {
                let head = DirtyRect {
                    x: left as u16,
                    y: row as u16,
                    width: (column - left) as u16,
                    height: 1,
                };
                let tail = row_runs(prev, next, row, column + 1, None);
                assert(rr == seq![head] + tail);
                if covers(rr, x, y) {
                    let i = choose|i: int| 0 <= i < rr.len() && rect_covers(#[trigger] rr[i], x, y);
                    if i > 0 {
                        assert(rr[i] == tail[i - 1]);
                        assert(covers(tail, x, y));
                    }
                }
                if y == row && left <= x < column {
                    assert(rect_covers(rr[0], x, y));
                }
                if covers(tail, x, y) {
                    let i = choose|i: int| 0 <= i < tail.len() && rect_covers(#[trigger] tail[i], x, y);
                    assert(rr[i + 1] == tail[i]);
                    assert(rect_covers(rr[i + 1], x, y));
                }
                assert forall|i: int| 0 <= i < rr.len() implies (#[trigger] rr[i]).y == row
                    && rr[i].height == 1 by {
                    if i > 0 {
                        assert(rr[i] == tail[i - 1]);
                    }
                }
            },
            None => {},
        }
    }
}

proof fn lemma_diff_rows_covers(prev: RenderSnapshot, next: RenderSnapshot, rows: int, x: int, y: int)
    requires
        0 <= rows <= next.rows,
    ensures
        covers(diff_rows(prev, next, rows), x, y) <==> 0 <= y < rows && 0 <= x < next.columns
            && cell_changed(prev, next, y, x),
    decreases rows,
{
    if rows > 0 {
        lemma_diff_rows_covers(prev, next, rows - 1, x, y);
        let rr = row_runs(prev, next, rows - 1, 0, None);
        lemma_row_runs_covers(prev, next, rows - 1, 0, None, x, y);
        assert(bottoms_fit(rr)) by {
            assert forall|i: int| 0 <= i < rr.len() implies #[trigger] rr[i].y + rr[i].height
                <= u16::MAX by {
                lemma_row_runs_covers(prev, next, rows - 1, 0, None, x, y);
            }
        }
        lemma_append_all_covers(diff_rows(prev, next, rows - 1), rr, x, y);
    } else {
        assert(!covers(diff_rows(prev, next, rows), x, y));
    }
}

/// The rectangles of a diff cover exactly the cells to redraw: every cell
/// of the grid when its size changed, else exactly the changed cells.
pub proof fn lemma_diff_covers_changed_cells(prev: RenderSnapshot, next: RenderSnapshot, x: int, y: int)
    ensures
        covers(diff_spec(prev, next), x, y) <==> 0 <= x < next.columns && 0 <= y < next.rows && (
        prev.rows != next.rows || prev.columns != next.columns || cell_changed(prev, next, y, x)),
{
    if prev.rows != next.rows || prev.columns != next.columns {
        let d = diff_spec(prev, next);
        if covers(d, x, y) {
            let i = choose|i: int| 0 <= i < d.len() && rect_covers(#[trigger] d[i], x, y);
        }
        if 0 <= x < next.columns && 0 <= y < next.rows {
            assert(rect_covers(d[0], x, y));
        }
    } else {
        lemma_diff_rows_covers(prev, next, next.rows as int, x, y);
    }
}

/// The snapshots have the same size and draw every cell of it the same.
pub open spec fn same_grid(a: RenderSnapshot, b: RenderSnapshot) -> bool {
    &&& a.rows == b.rows
    &&& a.columns == b.columns
    &&& forall|row: u16, column: u16|
        row < a.rows && column < a.columns ==> #[trigger] same_cell(
            a.cells@[row * a.columns + column],
            b.cells@[row * a.columns + column],
        )
}

proof fn lemma_row_runs_of_same_grids(
    a1: RenderSnapshot,
    a2: RenderSnapshot,
    b1: RenderSnapshot,
    b2: RenderSnapshot,
    row: int,
    column: int,
    start: Option<int>,
)
    requires
        same_grid(a1, a2),
        same_grid(b1, b2),
        a1.rows == b1.rows,
        a1.columns == b1.columns,
        0 <= row < b1.rows,
        0 <= column,
    ensures
        row_runs(a1, b1, row, column, start) == row_runs(a2, b2, row, column, start),
    decreases b1.columns - column,
{
    if column < b1.columns {
        let r = row as u16;
        let c = column as u16;
        assert(same_cell(a1.cells@[r * a1.columns + c], a2.cells@[r * a1.columns + c]));
        assert(same_cell(b1.cells@[r * b1.columns + c], b2.cells@[r * b1.columns + c]));
        assert(cell_changed(a1, b1, row, column) == cell_changed(a2, b2, row, column));
        lemma_row_runs_of_same_grids(a1, a2, b1, b2, row, column + 1, None);
        lemma_row_runs_of_same_grids(
            a1,
            a2,
            b1,
            b2,
            row,
            column + 1,
            match start {
                Some(left) => Some(left),
                None => Some(column),
            },
        );
    }
}

proof fn lemma_diff_rows_of_same_grids(
    a1: RenderSnapshot,
    a2: RenderSnapshot,
    b1: RenderSnapshot,
    b2: RenderSnapshot,
    rows: int,
)
    requires
        same_grid(a1, a2),
        same_grid(b1, b2),
        a1.rows == b1.rows,
        a1.columns == b1.columns,
        rows <= b1.rows,
    ensures
        diff_rows(a1, b1, rows) == diff_rows(a2, b2, rows),
    decreases rows,
{
    if rows > 0 {
        lemma_diff_rows_of_same_grids(a1, a2, b1, b2, rows - 1);
        lemma_row_runs_of_same_grids(a1, a2, b1, b2, rows - 1, 0, None);
    }
}

/// The diff depends only on what the snapshots draw: snapshots with the
/// same grids give the same rectangles.
pub proof fn lemma_diff_of_same_grids(
    a1: RenderSnapshot,
    a2: RenderSnapshot,
    b1: RenderSnapshot,
    b2: RenderSnapshot,
)
    requires
        same_grid(a1, a2),
        same_grid(b1, b2),
    ensures
        diff_spec(a1, b1) == diff_spec(a2, b2),
{
    if a1.rows == b1.rows && a1.columns == b1.columns {
        lemma_diff_rows_of_same_grids(a1, a2, b1, b2, b1.rows as int);
    }
}

/// For snapshots of the same size, the diff redraws a cell exactly when the
/// cell differs in its text or in any of its attributes: bold, underline,
/// inverse, foreground or background.
pub proof fn lemma_diff_redraws_cells_that_differ(prev: RenderSnapshot, next: RenderSnapshot, x: int, y: int)
    requires
        prev.rows == next.rows,
        prev.columns == next.columns,
    ensures
        covers(diff_spec(prev, next), x, y) <==> 0 <= x < next.columns && 0 <= y < next.rows && {
            let a = prev.cells@[y * next.columns + x];
            let b = next.cells@[y * next.columns + x];
            ||| a.text@ != b.text@
            ||| a.bold != b.bold
            ||| a.underline != b.underline
            ||| a.inverse != b.inverse
            ||| a.foreground != b.foreground
            ||| a.background != b.background
        },
{
    lemma_diff_covers_changed_cells(prev, next, x, y);
}

impl RenderSnapshot {
    /// The rectangles of cells that changed from `self` to `next`: the whole
    /// grid when the size changed; otherwise the maximal runs of changed
    /// cells of each row, with a run merged into the rectangle above it
    /// when that rectangle was the last one added and spans the same columns.
    pub fn diff(&self, next: &RenderSnapshot) -> (r: Vec<DirtyRect>)
        requires
            self.rows == next.rows && self.columns == next.columns ==> self.has_grid() && next.has_grid(),
        ensures
            r@ == diff_spec(*self, *next),
            bottoms_at_most(r@, next.rows as int),
    {
        if self.rows != next.rows || self.columns != next.columns {
            return vec![DirtyRect::full(next.columns, next.rows)];
        }
        let mut rects: Vec<DirtyRect> = Vec::new();
        let mut row: u16 = 0;
        while row < next.rows
            invariant
                self.rows == next.rows && self.columns == next.columns,
                self.has_grid() && next.has_grid(),
                row <= next.rows,
                rects@ == diff_rows(*self, *next, row as int),
                bottoms_at_most(rects@, row as int),
            decreases next.rows - row,
        {
            let mut start: Option<u16> = None;
            let mut column: u16 = 0;
            while column < next.columns
                invariant
                    self.rows == next.rows && self.columns == next.columns,
                    self.has_grid() && next.has_grid(),
                    row < next.rows,
                    column <= next.columns,
                    start matches Some(left) ==> left < column,
                    append_all(rects@, row_runs(*self, *next, row as int, column as int, match start {
                        Some(left) => Some(left as int),
                        None => None,
                    })) == diff_rows(*self, *next, row + 1),
                    bottoms_at_most(rects@, row + 1),
                decreases next.columns - column,
            {
                proof {
                    vstd::arithmetic::mul::lemma_mul_inequality(row as int + 1, next.rows as int, next.columns as int);
                    vstd::arithmetic::mul::lemma_mul_is_distributive_add_other_way(next.columns as int, row as int, 1);
                }
                let idx = (row as usize * next.columns as usize) + column as usize;
                if !cells_equal(&self.cells[idx], &next.cells[idx]) {
                    if start.is_none() {
                        start = Some(column);
                    }
                } else if let Some(left) = start {
                    let rect = DirtyRect { x: left, y: row, width: column - left, height: 1 };
                    proof {
                        lemma_append_all_step(rects@, rect, row_runs(*self, *next, row as int, column + 1, None));
                        lemma_append_bottoms(rects@, rect, row + 1);
                    }
                    append_or_extend_rect(&mut rects, rect);
                    start = None;
                }
                column = column + 1;
            }
            if let Some(left) = start {
                let rect = DirtyRect { x: left, y: row, width: next.columns - left, height: 1 };
                proof {
                    lemma_append_all_step(rects@, rect, seq![]);
                    lemma_append_bottoms(rects@, rect, row + 1);
                    assert(seq![rect] + Seq::<DirtyRect>::empty() =~= seq![rect]);
                }
                append_or_extend_rect(&mut rects, rect);
            } else {
                proof { lemma_append_all_step(rects@, DirtyRect { x: 0, y: 0, width: 0, height: 0 }, seq![]); }
            }
            row = row + 1;
        }
        rects
    }
}

/// A rectangle that covers at least one cell.
pub open spec fn is_nonempty_rect(r: DirtyRect) -> bool {
    r.width > 0 && r.height > 0
}

/// Order of rectangles by `(x, width, y, height)`, lexicographically.
pub open spec fn rect_key_le(a: DirtyRect, b: DirtyRect) -> bool {
    ||| a.x < b.x
    ||| a.x == b.x && a.width < b.width
    ||| a.x == b.x && a.width == b.width && a.y < b.y
    ||| a.x == b.x && a.width == b.width && a.y == b.y && a.height <= b.height
}

/// The rectangles stand in `(x, width, y, height)` order.
pub open spec fn sorted_by_rect_key(rects: Seq<DirtyRect>) -> bool {
    forall|i: int, j: int| 0 <= i < j < rects.len() ==> rect_key_le(#[trigger] rects[i], #[trigger] rects[j])
}

/// What coalescing makes of `rects`: the empty rectangles dropped, the
/// others sorted by `(x, width, y, height)` and appended in that order,
/// so that vertically adjacent rectangles over the same columns merge.
pub open spec fn coalesced(rects: Seq<DirtyRect>, result: Seq<DirtyRect>) -> bool {
    exists|sorted: Seq<DirtyRect>|
        #![trigger append_all(seq![], sorted)]
        sorted_by_rect_key(sorted) && sorted.to_multiset() == rects.filter(|r: DirtyRect| is_nonempty_rect(r)).to_multiset()
            && result == append_all(seq![], sorted)
}

/// Every nonempty rectangle ends within the `u16` range.
pub open spec fn nonempty_bottoms_fit(rects: Seq<DirtyRect>) -> bool {
    forall|i: int|
        0 <= i < rects.len() && is_nonempty_rect(#[trigger] rects[i]) ==> rects[i].y + rects[i].height
            <= u16::MAX
}

/// Sorts rectangles by `(x, width, y, height)` with `sort_by_key`.
#[verifier::external_body]
fn sort_rects_by_key(rects: &mut Vec<DirtyRect>)
    ensures
        final(rects)@.to_multiset() == old(rects)@.to_multiset(),
        sorted_by_rect_key(final(rects)@),
{
    rects.sort_by_key(|rect| (rect.x, rect.width, rect.y, rect.height));
}

/// Drops empty rectangles, sorts the rest by `(x, width, y, height)` and
/// merges each into the previous one where it continues it downwards.
pub fn coalesce_dirty_rects(rects: &mut Vec<DirtyRect>)
    requires
        nonempty_bottoms_fit(old(rects)@),
    ensures
        coalesced(old(rects)@, final(rects)@),
        nonempty_bottoms_fit(final(rects)@),
{
    let ghost pred = |r: DirtyRect| is_nonempty_rect(r);
    let ghost original = rects@;
    let mut kept: Vec<DirtyRect> = Vec::new();
    let n = rects.len();
    let mut i: usize = 0;
    while i < n
        invariant
            n == rects.len(),
            rects@ == original,
            pred == (|r: DirtyRect| is_nonempty_rect(r)),
            i <= n,
            kept@ == original.take(i as int).filter(pred),
        decreases n - i,
    {
        let rect = rects[i];
        if rect.width > 0 && rect.height > 0 {
            kept.push(rect);
        }
        proof {
            reveal(Seq::filter);
            assert(original.take(i + 1).drop_last() =~= original.take(i as int));
            assert(original.take(i + 1).last() == rect);
            assert(pred(rect) == (rect.width > 0 && rect.height > 0));
            let t = original.take(i + 1);
            assert(t.filter(pred) == if pred(t.last()) {
                t.drop_last().filter(pred).push(t.last())
            } else {
                t.drop_last().filter(pred)
            });
        }
        i = i + 1;
    }
    proof {
        assert(original.take(n as int) =~= original);
        assert forall|k: int| 0 <= k < kept@.len() implies #[trigger] kept@[k].y + kept@[k].height
            <= u16::MAX by {
            original.lemma_filter_pred(pred, k);
            assert(original.filter(pred).contains(kept@[k]));
            original.lemma_filter_contains_rev(pred, kept@[k]);
        }
    }
    let ghost filtered = kept@;
    sort_rects_by_key(&mut kept);
    proof {
        broadcast use vstd::seq_lib::group_to_multiset_ensures;
        assert forall|k: int| 0 <= k < kept@.len() implies #[trigger] kept@[k].y + kept@[k].height
            <= u16::MAX by {
            assert(kept@.contains(kept@[k]));
            assert(kept@.to_multiset().count(kept@[k]) > 0);
            assert(filtered.to_multiset().count(kept@[k]) > 0);
            assert(filtered.contains(kept@[k]));
            let w = choose|w: int| 0 <= w < filtered.len() && filtered[w] == kept@[k];
            assert(filtered[w].y + filtered[w].height <= u16::MAX);
        }
    }
    let ghost sorted = kept@;
    let mut merged: Vec<DirtyRect> = Vec::new();
    proof {
        assert(sorted.skip(0) =~= sorted);
        assert(merged@ =~= Seq::<DirtyRect>::empty());
    }
    let m = kept.len();
    let mut j: usize = 0;
    while j < m
        invariant
            m == kept.len(),
            kept@ == sorted,
            j <= m,
            bottoms_fit(sorted),
            bottoms_fit(merged@),
            append_all(merged@, sorted.skip(j as int)) == append_all(seq![], sorted),
        decreases m - j,
    {
        proof {
            assert(sorted.skip(j as int) =~= seq![sorted[j as int]] + sorted.skip(j + 1));
            lemma_append_all_step(merged@, sorted[j as int], sorted.skip(j + 1));
        }
        append_or_extend_rect(&mut merged, kept[j]);
        j = j + 1;
    }
    proof {
        assert(sorted.skip(m as int) =~= Seq::<DirtyRect>::empty());
        lemma_append_all_step(merged@, DirtyRect { x: 0, y: 0, width: 0, height: 0 }, seq![]);
    }
    *rects = merged;
    proof {
        lemma_coalesced_shape(original, rects@);
    }
}

proof fn lemma_same_multiset_covers(a: Seq<DirtyRect>, b: Seq<DirtyRect>, x: int, y: int)
    requires
        a.to_multiset() == b.to_multiset(),
    ensures
        covers(a, x, y) == covers(b, x, y),
        bottoms_fit(b) ==> bottoms_fit(a),
        all_nonempty(b) ==> all_nonempty(a),
{
    broadcast use vstd::seq_lib::group_to_multiset_ensures;

    if covers(a, x, y) {
        let i = choose|i: int| 0 <= i < a.len() && rect_covers(#[trigger] a[i], x, y);
        assert(a.contains(a[i]));
        assert(b.to_multiset().count(a[i]) > 0);
        assert(b.contains(a[i]));
        let j = choose|j: int| 0 <= j < b.len() && b[j] == a[i];
        assert(rect_covers(b[j], x, y));
    }
    if covers(b, x, y) {
        let i = choose|i: int| 0 <= i < b.len() && rect_covers(#[trigger] b[i], x, y);
        assert(b.contains(b[i]));
        assert(a.to_multiset().count(b[i]) > 0);
        assert(a.contains(b[i]));
        let j = choose|j: int| 0 <= j < a.len() && a[j] == b[i];
        assert(rect_covers(a[j], x, y));
    }
    if bottoms_fit(b) {
        assert forall|k: int| 0 <= k < a.len() implies #[trigger] a[k].y + a[k].height <= u16::MAX by {
            assert(a.contains(a[k]));
            assert(b.to_multiset().count(a[k]) > 0);
            assert(b.contains(a[k]));
            let j = choose|j: int| 0 <= j < b.len() && b[j] == a[k];
            assert(b[j].y + b[j].height <= u16::MAX);
        }
    }
    if all_nonempty(b) {
        assert forall|k: int| 0 <= k < a.len() implies is_nonempty_rect(#[trigger] a[k]) by {
            assert(a.contains(a[k]));
            assert(b.to_multiset().count(a[k]) > 0);
            assert(b.contains(a[k]));
            let j = choose|j: int| 0 <= j < b.len() && b[j] == a[k];
            assert(is_nonempty_rect(b[j]));
        }
    }
}

/// Coalescing never changes which cells are to be redrawn.
pub proof fn lemma_coalesce_preserves_coverage(
    rects: Seq<DirtyRect>,
    result: Seq<DirtyRect>,
    x: int,
    y: int,
)
    requires
        nonempty_bottoms_fit(rects),
        coalesced(rects, result),
    ensures
        covers(result, x, y) == covers(rects, x, y),
{
    let pred = |r: DirtyRect| is_nonempty_rect(r);
    let filtered = rects.filter(pred);
    let sorted = choose|sorted: Seq<DirtyRect>|
        #![trigger append_all(seq![], sorted)]
        sorted_by_rect_key(sorted) && sorted.to_multiset() == filtered.to_multiset() && result
            == append_all(seq![], sorted);
    assert(bottoms_fit(filtered)) by {
        assert forall|k: int| 0 <= k < filtered.len() implies #[trigger] filtered[k].y
            + filtered[k].height <= u16::MAX by {
            rects.lemma_filter_pred(pred, k);
            assert(filtered.contains(filtered[k]));
            rects.lemma_filter_contains_rev(pred, filtered[k]);
        }
    }
    lemma_same_multiset_covers(sorted, filtered, x, y);
    lemma_append_all_covers(seq![], sorted, x, y);
    assert(!covers(Seq::<DirtyRect>::empty(), x, y));
    if covers(filtered, x, y) {
        let k = choose|k: int| 0 <= k < filtered.len() && rect_covers(#[trigger] filtered[k], x, y);
        assert(filtered.contains(filtered[k]));
        rects.lemma_filter_contains_rev(pred, filtered[k]);
        let j = choose|j: int| 0 <= j < rects.len() && rects[j] == filtered[k];
        assert(rect_covers(rects[j], x, y));
    }
    if covers(rects, x, y) {
        let j = choose|j: int| 0 <= j < rects.len() && rect_covers(#[trigger] rects[j], x, y);
        rects.lemma_filter_contains(pred, j);
        let k = choose|k: int| 0 <= k < filtered.len() && filtered[k] == rects[j];
        assert(rect_covers(filtered[k], x, y));
    }
}

/// No rectangle of the list could absorb the one after it.
pub open spec fn merge_free(rects: Seq<DirtyRect>) -> bool {
    forall|i: int| 0 <= i < rects.len() - 1 ==> !extends_below(#[trigger] rects[i], rects[i + 1])
}

/// Every rectangle of the list covers at least one cell.
pub open spec fn all_nonempty(rects: Seq<DirtyRect>) -> bool {
    forall|i: int| 0 <= i < rects.len() ==> is_nonempty_rect(#[trigger] rects[i])
}

proof fn lemma_append_all_sorted(acc: Seq<DirtyRect>, rs: Seq<DirtyRect>)
    requires
        sorted_by_rect_key(acc),
        all_nonempty(acc),
        merge_free(acc),
        bottoms_fit(acc),
        sorted_by_rect_key(rs),
        all_nonempty(rs),
        bottoms_fit(rs),
        acc.len() > 0 ==> forall|j: int| 0 <= j < rs.len() ==> rect_key_le(acc.last(), #[trigger] rs[j]),
    ensures
        sorted_by_rect_key(append_all(acc, rs)),
        all_nonempty(append_all(acc, rs)),
        merge_free(append_all(acc, rs)),
        bottoms_fit(append_all(acc, rs)),
    decreases rs.len(),
{
    if rs.len() > 0 {
        let b0 = rs[0];
        let next = append_rect(acc, b0);
        lemma_append_bottoms(acc, b0, u16::MAX as int);
        let rest = rs.drop_first();
        if acc.len() > 0 && extends_below(acc.last(), b0) {
            let l = acc.last();
            let l2 = DirtyRect { height: (l.height + 1) as u16, ..l };
            assert(next == acc.update(acc.len() - 1, l2));
            assert forall|i: int, j: int| 0 <= i < j < next.len() implies rect_key_le(
                #[trigger] next[i],
                #[trigger] next[j],
            ) by {
                if j == next.len() - 1 {
                    assert(rect_key_le(acc[i], acc[acc.len() - 1]));
                } else {
                    assert(rect_key_le(acc[i], acc[j]));
                }
            }
            assert forall|i: int| 0 <= i < next.len() - 1 implies !extends_below(
                #[trigger] next[i],
                next[i + 1],
            ) by {
                if i + 1 < acc.len() - 1 {
                    assert(!extends_below(acc[i], acc[i + 1]));
                }
            }
            assert forall|j: int| 0 <= j < rest.len() implies rect_key_le(next.last(), #[trigger] rest[j]) by {
                assert(rect_key_le(rs[0], rs[j + 1]));
            }
        } else {
            assert(next == acc.push(b0));
            assert forall|i: int, j: int| 0 <= i < j < next.len() implies rect_key_le(
                #[trigger] next[i],
                #[trigger] next[j],
            ) by {
                if j == next.len() - 1 {
                    assert(rect_key_le(acc[i], acc[acc.len() - 1]));
                    assert(rect_key_le(acc.last(), rs[0]));
                } else {
                    assert(rect_key_le(acc[i], acc[j]));
                }
            }
            assert forall|i: int| 0 <= i < next.len() - 1 implies !extends_below(
                #[trigger] next[i],
                next[i + 1],
            ) by {
                if i + 1 < acc.len() {
                    assert(!extends_below(acc[i], acc[i + 1]));
                }
            }
            assert forall|j: int| 0 <= j < rest.len() implies rect_key_le(next.last(), #[trigger] rest[j]) by {
                assert(rect_key_le(rs[0], rs[j + 1]));
            }
        }
        assert forall|i: int| 0 <= i < next.len() implies is_nonempty_rect(#[trigger] next[i]) by {
            if i < acc.len() {
                assert(is_nonempty_rect(acc[i]));
            }
        }
        assert forall|i: int, j: int| 0 <= i < j < rest.len() implies rect_key_le(
            #[trigger] rest[i],
            #[trigger] rest[j],
        ) by {
            assert(rect_key_le(rs[i + 1], rs[j + 1]));
        }
        assert forall|i: int| 0 <= i < rest.len() implies is_nonempty_rect(#[trigger] rest[i]) by {
            assert(is_nonempty_rect(rs[i + 1]));
        }
        assert forall|i: int| 0 <= i < rest.len() implies #[trigger] rest[i].y + rest[i].height
            <= u16::MAX by {
            assert(rs[i + 1].y + rs[i + 1].height <= u16::MAX);
        }
        lemma_append_all_sorted(next, rest);
    }
}

proof fn lemma_append_all_merge_free(acc: Seq<DirtyRect>, rs: Seq<DirtyRect>)
    requires
        merge_free(acc + rs),
    ensures
        append_all(acc, rs) == acc + rs,
    decreases rs.len(),
{
    if rs.len() > 0 {
        if acc.len() > 0 {
            assert((acc + rs)[acc.len() - 1] == acc.last());
            assert((acc + rs)[acc.len() as int] == rs[0]);
        }
        assert(append_rect(acc, rs[0]) == acc.push(rs[0]));
        assert(acc.push(rs[0]) + rs.drop_first() =~= acc + rs);
        lemma_append_all_merge_free(acc.push(rs[0]), rs.drop_first());
    }
}

proof fn lemma_filter_keeps_nonempty(rects: Seq<DirtyRect>)
    requires
        all_nonempty(rects),
    ensures
        rects.filter(|r: DirtyRect| is_nonempty_rect(r)) == rects,
    decreases rects.len(),
{
    reveal(Seq::filter);
    if rects.len() > 0 {
        lemma_filter_keeps_nonempty(rects.drop_last());
        assert(rects.drop_last().push(rects.last()) =~= rects);
    }
}

proof fn lemma_rect_key_total_order()
    ensures
        vstd::relations::total_ordering(|a: DirtyRect, b: DirtyRect| rect_key_le(a, b)),
{
}

proof fn lemma_sorted_by_rect_key(rects: Seq<DirtyRect>)
    ensures
        sorted_by_rect_key(rects) == vstd::relations::sorted_by(
            rects,
            |a: DirtyRect, b: DirtyRect| rect_key_le(a, b),
        ),
{
    let leq = |a: DirtyRect, b: DirtyRect| rect_key_le(a, b);
    if sorted_by_rect_key(rects) {
        assert forall|i: int, j: int| 0 <= i < j < rects.len() implies #[trigger] leq(rects[i], rects[j]) by {
            assert(rect_key_le(rects[i], rects[j]));
        }
    }
    if vstd::relations::sorted_by(rects, leq) {
        assert forall|i: int, j: int| 0 <= i < j < rects.len() implies rect_key_le(
            #[trigger] rects[i],
            #[trigger] rects[j],
        ) by {
            assert(leq(rects[i], rects[j]));
        }
    }
}

/// What coalescing gives is sorted, covers at least one cell with every
/// rectangle, has no rectangle that could absorb the next, and keeps its
/// bottom edges within the `u16` range.
pub proof fn lemma_coalesced_shape(rects: Seq<DirtyRect>, result: Seq<DirtyRect>)
    requires
        nonempty_bottoms_fit(rects),
        coalesced(rects, result),
    ensures
        sorted_by_rect_key(result),
        all_nonempty(result),
        merge_free(result),
        nonempty_bottoms_fit(result),
{
    let pred = |r: DirtyRect| is_nonempty_rect(r);
    let filtered = rects.filter(pred);
    let sorted = choose|sorted: Seq<DirtyRect>|
        #![trigger append_all(seq![], sorted)]
        sorted_by_rect_key(sorted) && sorted.to_multiset() == filtered.to_multiset() && result
            == append_all(seq![], sorted);
    assert(bottoms_fit(filtered) && all_nonempty(filtered)) by {
        assert forall|k: int| 0 <= k < filtered.len() implies #[trigger] filtered[k].y
            + filtered[k].height <= u16::MAX && is_nonempty_rect(filtered[k]) by {
            rects.lemma_filter_pred(pred, k);
            assert(filtered.contains(filtered[k]));
            rects.lemma_filter_contains_rev(pred, filtered[k]);
        }
    }
    lemma_same_multiset_covers(sorted, filtered, 0, 0);
    lemma_append_all_sorted(seq![], sorted);
    assert forall|i: int| 0 <= i < result.len() && is_nonempty_rect(#[trigger] result[i]) implies result[i].y
        + result[i].height <= u16::MAX by {
        assert(bottoms_fit(result));
    }
}

/// Coalescing twice gives what coalescing once gave.
pub proof fn lemma_coalesce_idempotent(rects: Seq<DirtyRect>, once: Seq<DirtyRect>, twice: Seq<DirtyRect>)
    requires
        nonempty_bottoms_fit(rects),
        coalesced(rects, once),
        coalesced(once, twice),
    ensures
        twice == once,
{
    lemma_coalesced_shape(rects, once);
    lemma_filter_keeps_nonempty(once);
    let sorted = choose|sorted: Seq<DirtyRect>|
        #![trigger append_all(seq![], sorted)]
        sorted_by_rect_key(sorted) && sorted.to_multiset() == once.filter(
            |r: DirtyRect| is_nonempty_rect(r),
        ).to_multiset() && twice == append_all(seq![], sorted);
    lemma_rect_key_total_order();
    lemma_sorted_by_rect_key(sorted);
    lemma_sorted_by_rect_key(once);
    vstd::seq_lib::lemma_sorted_unique(
        sorted,
        once,
        |a: DirtyRect, b: DirtyRect| rect_key_le(a, b),
    );
    assert(Seq::<DirtyRect>::empty() + once =~= once);
    lemma_append_all_merge_free(seq![], once);
}

fn append_or_extend_rect(rects: &mut Vec<DirtyRect>, rect: DirtyRect)
    requires
        bottoms_fit(old(rects)@),
        rect.y + rect.height <= u16::MAX,
    ensures
        final(rects)@ == append_rect(old(rects)@, rect),
        bottoms_fit(final(rects)@),
{
    let n = rects.len();
    if n > 0 {
        let last = rects[n - 1];
        if last.x == rect.x && last.width == rect.width && last.y as u32 + last.height as u32
            == rect.y as u32 && rect.height == 1 {
            rects.set(n - 1, DirtyRect { height: last.height + 1, ..last });
            return ;
        }
    }
    rects.push(rect);
}

/// How urgently a screen change should reach the display.
#[derive(Debug, Clone, Copy, PartialEq, Eq, PartialOrd, Ord, Structural)]
pub enum RefreshPriority {
    Low,
    Normal,
    High,
}

/// The rank of a priority: `Low` < `Normal` < `High`.
pub open spec fn priority_rank(p: RefreshPriority) -> int {
    match p {
        RefreshPriority::Low => 0,
        RefreshPriority::Normal => 1,
        RefreshPriority::High => 2,
    }
}

/// The higher of two priorities.
pub open spec fn max_priority(a: RefreshPriority, b: RefreshPriority) -> RefreshPriority {
    if priority_rank(a) >= priority_rank(b) {
        a
    } else {
        b
    }
}

/// Whether a refresh is due at `now` for a pending change of `priority`,
/// given the last refresh and the rate-limit policy.
pub open spec fn refresh_due(
    priority: RefreshPriority,
    last_refresh: Option<Instant>,
    now: Instant,
    min_interval: Duration,
    high_priority_bypasses_rate_limit: bool,
) -> bool {
    ||| priority == RefreshPriority::High && high_priority_bypasses_rate_limit
    ||| last_refresh is None
    ||| elapsed_between(last_refresh.unwrap(), now) >= min_interval.nanos
}

/// A scheduler's state: its rate limit and bypass policy, when it last
/// refreshed, and the highest pending priority.
pub struct SchedulerView {
    pub min_interval: Duration,
    pub bypasses_rate_limit: bool,
    pub last_refresh: Option<Instant>,
    pub pending: Option<RefreshPriority>,
}

/// A fresh scheduler's state.
pub open spec fn initial_view(min_interval: Duration, bypasses_rate_limit: bool) -> SchedulerView {
    SchedulerView { min_interval, bypasses_rate_limit, last_refresh: None, pending: None }
}

/// The state after a change of the given priority is recorded.
pub open spec fn record_view(v: SchedulerView, priority: RefreshPriority) -> SchedulerView {
    SchedulerView {
        pending: Some(
            match v.pending {
                Some(p) => max_priority(p, priority),
                None => priority,
            },
        ),
        ..v
    }
}

/// Whether the scheduler refreshes at `now`, and its state afterwards.
pub open spec fn poll_view(v: SchedulerView, now: Instant) -> (SchedulerView, bool) {
    if v.pending matches Some(p) && refresh_due(
        p,
        v.last_refresh,
        now,
        v.min_interval,
        v.bypasses_rate_limit,
    ) {
        (SchedulerView { last_refresh: Some(now), pending: None, ..v }, true)
    } else {
        (v, false)
    }
}

/// A call on a scheduler.
pub enum SchedulerOp {
    /// `record_mutation` with this priority.
    Record(RefreshPriority),
    /// `should_refresh` at this instant.
    Poll(Instant),
}

/// The state after one call and whether it refreshed.
pub open spec fn apply_op(v: SchedulerView, op: SchedulerOp) -> (SchedulerView, bool) {
    match op {
        SchedulerOp::Record(p) => (record_view(v, p), false),
        SchedulerOp::Poll(now) => poll_view(v, now),
    }
}

/// The state after the calls, in order.
pub open spec fn run_ops(v: SchedulerView, ops: Seq<SchedulerOp>) -> SchedulerView
    decreases ops.len(),
{
    if ops.len() == 0 {
        v
    } else {
        apply_op(run_ops(v, ops.drop_last()), ops.last()).0
    }
}

/// Whether call `i` of the sequence refreshed.
pub open spec fn op_refreshes(v: SchedulerView, ops: Seq<SchedulerOp>, i: int) -> bool {
    apply_op(run_ops(v, ops.take(i)), ops[i]).1
}

proof fn lemma_quiet_run(v: SchedulerView, t1: Instant, ops: Seq<SchedulerOp>)
    requires
        v.last_refresh == Some(t1),
        v.pending is None,
        forall|i: int| 0 <= i < ops.len() ==> !#[trigger] op_refreshes(v, ops, i),
    ensures
        run_ops(v, ops).last_refresh == Some(t1),
        run_ops(v, ops).min_interval == v.min_interval,
        run_ops(v, ops).bypasses_rate_limit == v.bypasses_rate_limit,
        run_ops(v, ops).pending == Some(RefreshPriority::High) ==> exists|i: int|
            0 <= i < ops.len() && ops[i] == SchedulerOp::Record(RefreshPriority::High),
    decreases ops.len(),
{
    if ops.len() > 0 {
        let pre = ops.drop_last();
        let n = ops.len() - 1;
        assert forall|i: int| 0 <= i < pre.len() implies !#[trigger] op_refreshes(v, pre, i) by {
            assert(pre.take(i) =~= ops.take(i));
            assert(!op_refreshes(v, ops, i));
        }
        lemma_quiet_run(v, t1, pre);
        assert(ops.take(n) =~= pre);
        assert(!op_refreshes(v, ops, n));
        let w = run_ops(v, pre);
        if run_ops(v, ops).pending == Some(RefreshPriority::High) {
            match ops.last() {
                SchedulerOp::Record(p) => {
                    if p == RefreshPriority::High {
                        assert(ops[n] == SchedulerOp::Record(RefreshPriority::High));
                    } else {
                        assert(w.pending == Some(RefreshPriority::High));
                        let i = choose|i: int|
                            0 <= i < pre.len() && pre[i] == SchedulerOp::Record(RefreshPriority::High);
                        assert(ops[i] == pre[i]);
                    }
                },
                SchedulerOp::Poll(now) => {
                    let i = choose|i: int|
                        0 <= i < pre.len() && pre[i] == SchedulerOp::Record(RefreshPriority::High);
                    assert(ops[i] == pre[i]);
                },
            }
        }
    }
}

/// The rate limit across any calls: after a refresh at `t1`, when none of
/// the following calls refreshed, a refresh at `t2` comes at least
/// `min_interval` later, unless high-priority changes may bypass the limit
/// and one was recorded in between.
pub proof fn lemma_rate_limit_across_calls(
    v: SchedulerView,
    t1: Instant,
    ops: Seq<SchedulerOp>,
    t2: Instant,
)
    requires
        v.last_refresh == Some(t1),
        v.pending is None,
        forall|i: int| 0 <= i < ops.len() ==> !#[trigger] op_refreshes(v, ops, i),
        poll_view(run_ops(v, ops), t2).1,
    ensures
        elapsed_between(t1, t2) >= v.min_interval.nanos || (v.bypasses_rate_limit && exists|i: int|
            0 <= i < ops.len() && ops[i] == SchedulerOp::Record(RefreshPriority::High)),
{
    lemma_quiet_run(v, t1, ops);
}

/// A refresh leaves the state the rate limit starts from: the refresh time
/// recorded and nothing pending.
pub proof fn lemma_refresh_restarts_limit(v: SchedulerView, now: Instant)
    requires
        poll_view(v, now).1,
    ensures
        poll_view(v, now).0.last_refresh == Some(now),
        poll_view(v, now).0.pending is None,
        poll_view(v, now).0.min_interval == v.min_interval,
        poll_view(v, now).0.bypasses_rate_limit == v.bypasses_rate_limit,
{
}

/// Collects screen changes and decides when the display refreshes: at most
/// once per `min_interval`, unless a high-priority change may bypass that.
#[derive(Debug)]
pub struct RefreshScheduler {
    min_interval: Duration,
    high_priority_bypasses_rate_limit: bool,
    last_refresh: Option<Instant>,
    pending_priority: Option<RefreshPriority>,
}

impl RefreshScheduler {
    /// The shortest time between two refreshes.
    pub closed spec fn min_interval(&self) -> Duration {
        self.min_interval
    }

    /// Whether a high-priority change refreshes regardless of the interval.
    pub closed spec fn bypasses_rate_limit(&self) -> bool {
        self.high_priority_bypasses_rate_limit
    }

    /// When the display last refreshed, if ever.
    pub closed spec fn last_refresh(&self) -> Option<Instant> {
        self.last_refresh
    }

    /// The highest priority of the changes since the last refresh, if any.
    pub closed spec fn pending(&self) -> Option<RefreshPriority> {
        self.pending_priority
    }

    /// A scheduler whose high-priority changes bypass the rate limit: the
    /// same state as `with_policy(min_interval, true)`.
    pub fn new(min_interval: Duration) -> (r: Self)
        ensures
            r@ == initial_view(min_interval, true),
            r.min_interval() == min_interval,
            r.bypasses_rate_limit(),
            r.last_refresh() is None,
            r.pending() is None,
    {
        Self::with_policy(min_interval, true)
    }

    /// A scheduler with the given rate limit and bypass policy.
    pub fn with_policy(min_interval: Duration, high_priority_bypasses_rate_limit: bool) -> (r: Self)
        ensures
            r@ == initial_view(min_interval, high_priority_bypasses_rate_limit),
            r.min_interval() == min_interval,
            r.bypasses_rate_limit() == high_priority_bypasses_rate_limit,
            r.last_refresh() is None,
            r.pending() is None,
    {
        RefreshScheduler {
            min_interval,
            high_priority_bypasses_rate_limit,
            last_refresh: None,
            pending_priority: None,
        }
    }

    /// Records a screen change; the pending priority becomes the highest
    /// of those recorded since the last refresh.
    pub fn record_mutation(&mut self, priority: RefreshPriority)
        ensures
            final(self)@ == record_view(old(self)@, priority),
            final(self).pending() == Some(
                match old(self).pending() {
                    Some(p) => max_priority(p, priority),
                    None => priority,
                },
            ),
            final(self).min_interval() == old(self).min_interval(),
            final(self).bypasses_rate_limit() == old(self).bypasses_rate_limit(),
            final(self).last_refresh() == old(self).last_refresh(),
    {
        let next = match self.pending_priority {
            Some(p) => if priority_rank_of(p) >= priority_rank_of(priority) {
                p
            } else {
                priority
            },
            None => priority,
        };
        self.pending_priority = Some(next);
    }

    /// Whether the display should refresh at `now`: only with a change
    /// pending, and then when the rate limit allows it. A refresh clears the
    /// pending change and remembers `now`; otherwise nothing changes.
    pub fn should_refresh(&mut self, now: Instant) -> (r: bool)
        ensures
            (final(self)@, r) == poll_view(old(self)@, now),
            r == (old(self).pending() matches Some(p) && refresh_due(
                p,
                old(self).last_refresh(),
                now,
                old(self).min_interval(),
                old(self).bypasses_rate_limit(),
            )),
            r ==> final(self).last_refresh() == Some(now) && final(self).pending() is None,
            !r ==> final(self).last_refresh() == old(self).last_refresh() && final(self).pending()
                == old(self).pending(),
            final(self).min_interval() == old(self).min_interval(),
            final(self).bypasses_rate_limit() == old(self).bypasses_rate_limit(),
    {
        let priority = match self.pending_priority {
            Some(p) => p,
            None => {
                return false;
            },
        };
        let due = match (priority, self.last_refresh) {
            (RefreshPriority::High, _) if self.high_priority_bypasses_rate_limit => true,
            (_, None) => true,
            (_, Some(last)) => now.duration_since(last).nanos >= self.min_interval.nanos,
        };
        if due {
            self.last_refresh = Some(now);
            self.pending_priority = None;
        }
        due
    }
}

impl View for RefreshScheduler {
    type V = SchedulerView;

    open spec fn view(&self) -> SchedulerView {
        SchedulerView {
            min_interval: self.min_interval(),
            bypasses_rate_limit: self.bypasses_rate_limit(),
            last_refresh: self.last_refresh(),
            pending: self.pending(),
        }
    }
}

fn priority_rank_of(p: RefreshPriority) -> (r: u8)
    ensures
        r == priority_rank(p),
{
    match p {
        RefreshPriority::Low => 0,
        RefreshPriority::Normal => 1,
        RefreshPriority::High => 2,
    }
}

/// Within `min_interval` of the last refresh, only a high-priority change
/// on a scheduler that lets it bypass the rate limit is due.
pub proof fn lemma_rate_limit_holds(
    priority: RefreshPriority,
    last: Instant,
    now: Instant,
    min_interval: Duration,
    high_priority_bypasses_rate_limit: bool,
)
    requires
        elapsed_between(last, now) < min_interval.nanos,
        refresh_due(priority, Some(last), now, min_interval, high_priority_bypasses_rate_limit),
    ensures
        priority == RefreshPriority::High,
        high_priority_bypasses_rate_limit,
{
}

/// Recording changes keeps the highest priority: it never lowers the
/// pending priority, and the pending priority is one of those recorded.
pub proof fn lemma_pending_priority_is_max(a: RefreshPriority, b: RefreshPriority)
    ensures
        priority_rank(max_priority(a, b)) >= priority_rank(a),
        priority_rank(max_priority(a, b)) >= priority_rank(b),
        max_priority(a, b) == a || max_priority(a, b) == b,
        max_priority(a, b) == max_priority(b, a),
{
}

} // verus!
