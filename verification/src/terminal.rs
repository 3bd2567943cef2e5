//! The terminal screen, kept by the `vt100` parser, seen as snapshots.

use vstd::prelude::*;

use crate::input::TerminalInputMode;
use crate::refresh::{
    bottoms_at_most, diff_spec, lemma_diff_of_same_grids, same_cell, same_grid, DirtyRect, RenderCell,
    RenderSnapshot, TerminalColor,
};

verus! {

/// The screen state kept by a `vt100::Parser`.
#[verifier::external_body]
pub struct Vt100Screen {
    parser: vt100::Parser,
}

/// A cell as text and attributes.
pub type CellView = (Seq<char>, bool, bool, bool, TerminalColor, TerminalColor);

/// What the parser's visible screen holds: the cell at each `(row, column)`
/// it has one for, as text and attributes.
pub uninterp spec fn screen_cells(screen: Vt100Screen) -> Map<(u16, u16), CellView>;

/// The size the parser's screen was made or last resized with: rows, columns.
pub uninterp spec fn screen_size(screen: Vt100Screen) -> (u16, u16);

/// The cursor position of the parser's screen: row, column.
pub uninterp spec fn screen_cursor(screen: Vt100Screen) -> (u16, u16);

/// Whether the application has hidden the cursor.
pub uninterp spec fn screen_hides_cursor(screen: Vt100Screen) -> bool;

/// Whether the alternate screen is shown.
pub uninterp spec fn screen_alternate(screen: Vt100Screen) -> bool;

/// Whether the application switched application cursor mode on.
pub uninterp spec fn screen_application_cursor(screen: Vt100Screen) -> bool;

/// Whether the application switched bracketed paste on.
pub uninterp spec fn screen_bracketed_paste(screen: Vt100Screen) -> bool;

/// The visible screen's text.
pub uninterp spec fn screen_contents(screen: Vt100Screen) -> Seq<char>;

/// The screen seen whole: its cells, size, cursor, whether the cursor is
/// hidden, whether the alternate screen is shown, application cursor mode,
/// bracketed paste mode, and its text.
pub type ScreenView = (Map<(u16, u16), CellView>, (u16, u16), (u16, u16), bool, bool, bool, bool, Seq<char>);

/// The whole view of a parser's screen.
pub open spec fn screen_view(screen: Vt100Screen) -> ScreenView {
    (
        screen_cells(screen),
        screen_size(screen),
        screen_cursor(screen),
        screen_hides_cursor(screen),
        screen_alternate(screen),
        screen_application_cursor(screen),
        screen_bracketed_paste(screen),
        screen_contents(screen),
    )
}

/// The screen after `vt100::Parser::process` has fed `bytes` to `screen`.
pub uninterp spec fn processed_screen(screen: Vt100Screen, bytes: Seq<u8>) -> ScreenView;

/// A cell's text and attributes.
pub open spec fn cell_view(cell: RenderCell) -> CellView {
    (cell.text@, cell.bold, cell.underline, cell.inverse, cell.foreground, cell.background)
}

/// A cell the parser has never written: no text, no attributes, default
/// colors.
pub open spec fn fresh_cell_view() -> CellView {
    (Seq::empty(), false, false, false, TerminalColor::Default, TerminalColor::Default)
}

/// A blank screen of `rows` x `columns` fresh cells.
pub open spec fn blank_cells(rows: u16, columns: u16) -> Map<(u16, u16), CellView> {
    Map::new(|p: (u16, u16)| p.0 < rows && p.1 < columns, |p: (u16, u16)| fresh_cell_view())
}

/// What resizing a screen to `rows` x `columns` makes of its cells: those
/// within both the old and the new size stay as they were, those beyond
/// the old size are fresh.
pub open spec fn resized_cells(
    before: Map<(u16, u16), CellView>,
    old_size: (u16, u16),
    after: Map<(u16, u16), CellView>,
    rows: u16,
    columns: u16,
) -> bool {
    forall|row: u16, column: u16|
        #![trigger after.dom().contains((row, column))]
        row < rows && column < columns ==> {
            &&& (row >= old_size.0 || column >= old_size.1) ==> after.dom().contains((row, column))
                && after[(row, column)] == fresh_cell_view()
            &&& before.dom().contains((row, column)) ==> after.dom().contains((row, column))
                && after[(row, column)] == before[(row, column)]
        }
}

/// The cursor kept within a `rows` x `columns` screen.
pub open spec fn clamped_cursor(cursor: (u16, u16), rows: u16, columns: u16) -> (u16, u16) {
    (
        if cursor.0 < rows { cursor.0 } else { (rows - 1) as u16 },
        if cursor.1 < columns { cursor.1 } else { (columns - 1) as u16 },
    )
}

/// Two snapshots that show the same screen hold the same grid.
pub proof fn lemma_shown_screens_agree(a: RenderSnapshot, b: RenderSnapshot, parser: Vt100Screen)
    requires
        shows_screen(a, parser),
        shows_screen(b, parser),
    ensures
        same_grid(a, b),
{
    assert forall|row: u16, column: u16| row < a.rows && column < a.columns implies #[trigger] same_cell(
        a.cells@[row * a.columns + column],
        b.cells@[row * a.columns + column],
    ) by {
        assert(cell_view(a.cells@[row * a.columns + column]) == cell_view(b.cells@[row * b.columns + column]));
    }
}

/// A blank cell: a space, no attributes, default colors.
pub open spec fn blank_cell_view() -> CellView {
    (" "@, false, false, false, TerminalColor::Default, TerminalColor::Default)
}

/// The snapshot shows the parser's screen: its size, its cursor and screen
/// mode, and each cell as the screen holds it, blank where it holds none.
pub open spec fn shows_screen(snapshot: RenderSnapshot, parser: Vt100Screen) -> bool {
    &&& snapshot.rows == screen_size(parser).0
    &&& snapshot.columns == screen_size(parser).1
    &&& snapshot.wf()
    &&& (snapshot.cursor_row, snapshot.cursor_column) == screen_cursor(parser)
    &&& snapshot.cursor_visible == !screen_hides_cursor(parser)
    &&& snapshot.alternate_screen == screen_alternate(parser)
    &&& forall|row: u16, column: u16|
        row < snapshot.rows && column < snapshot.columns ==> #[trigger] cell_view(
            snapshot.cells@[row * snapshot.columns + column],
        ) == if screen_cells(parser).dom().contains((row, column)) {
            screen_cells(parser)[(row, column)]
        } else {
            blank_cell_view()
        }
}

/// The fewest rows a screen fed with output may have: wrapping to the next
/// line must leave the previous line on the screen.
pub const MIN_ROWS: u16 = 2;

/// The fewest columns a screen fed with output may have: a character two
/// cells wide must fit in a row.
pub const MIN_COLUMNS: u16 = 2;

/// The most columns a screen fed with output may have: a tab from the last
/// column must still land on a `u16` column.
pub const MAX_COLUMNS: u16 = 65527;

/// Whether the parser can be fed output on a screen of this size: `vt100`
/// computes, in `u16`, `columns - 2` for a wide character, the next tab
/// stop past the cursor, and the row left when a line wraps on a screen
/// that scrolls, which overflow outside these bounds.
pub open spec fn supported_size(rows: u16, columns: u16) -> bool {
    &&& MIN_ROWS <= rows
    &&& MIN_COLUMNS <= columns <= MAX_COLUMNS
}

/// Makes a `vt100::Parser` of the given size with 1000 lines of scrollback:
/// every cell fresh, the cursor home, no mode switched on. Its text is not
/// stated.
#[verifier::external_body]
fn parser_new(rows: u16, columns: u16) -> (r: Vt100Screen)
    requires
        rows > 0,
        columns > 0,
    ensures
        screen_size(r) == (rows, columns),
        screen_cells(r) == blank_cells(rows, columns),
        screen_cursor(r) == (0u16, 0u16),
        !screen_hides_cursor(r),
        !screen_alternate(r),
        !screen_application_cursor(r),
        !screen_bracketed_paste(r),
{
    Vt100Screen { parser: vt100::Parser::new(rows, columns, 1_000) }
}

/// Feeds output to `vt100::Parser::process` on a screen whose width
/// `vt100` handles without overflow: the new screen is the one that
/// processing these bytes gives; it keeps its size.
#[verifier::external_body]
fn parser_process(parser: &mut Vt100Screen, bytes: &[u8])
    requires
        supported_size(screen_size(*old(parser)).0, screen_size(*old(parser)).1),
    ensures
        screen_view(*final(parser)) == processed_screen(*old(parser), bytes@),
        screen_size(*final(parser)) == screen_size(*old(parser)),
{
    parser.parser.process(bytes)
}

/// Resizes the screen with `vt100::Screen::set_size`: rows and columns are
/// cut or padded with fresh cells, the cursor is kept inside, the modes stay.
/// (The library never scrolls the view back, so the visible screen is the
/// live grid that `set_size` resizes.) Its text is not stated.
#[verifier::external_body]
fn parser_set_size(parser: &mut Vt100Screen, rows: u16, columns: u16)
    requires
        rows > 0,
        columns > 0,
    ensures
        screen_size(*final(parser)) == (rows, columns),
        resized_cells(
            screen_cells(*old(parser)),
            screen_size(*old(parser)),
            screen_cells(*final(parser)),
            rows,
            columns,
        ),
        screen_cursor(*final(parser)) == clamped_cursor(screen_cursor(*old(parser)), rows, columns),
        screen_hides_cursor(*final(parser)) == screen_hides_cursor(*old(parser)),
        screen_alternate(*final(parser)) == screen_alternate(*old(parser)),
        screen_application_cursor(*final(parser)) == screen_application_cursor(*old(parser)),
        screen_bracketed_paste(*final(parser)) == screen_bracketed_paste(*old(parser)),
{
    parser.parser.screen_mut().set_size(rows, columns)
}

/// The screen size from `vt100::Screen::size`.
#[verifier::external_body]
fn parser_screen_size(parser: &Vt100Screen) -> (r: (u16, u16))
    ensures
        r == screen_size(*parser),
{
    parser.parser.screen().size()
}

/// The cell at `row`, `column` from `vt100::Screen::cell`, as text and
/// attributes, its colors taken variant by variant.
#[verifier::external_body]
fn parser_cell(parser: &Vt100Screen, row: u16, column: u16) -> (r: Option<RenderCell>)
    ensures
        match r {
            Some(cell) => screen_cells(*parser).dom().contains((row, column)) && screen_cells(
                *parser,
            )[(row, column)] == cell_view(cell),
            None => !screen_cells(*parser).dom().contains((row, column)),
        },
{
    let color = |c: vt100::Color| match c {
        vt100::Color::Default => TerminalColor::Default,
        vt100::Color::Idx(index) => TerminalColor::Indexed(index),
        vt100::Color::Rgb(red, green, blue) => TerminalColor::Rgb(red, green, blue),
    };
    parser.parser.screen().cell(row, column).map(|cell| RenderCell {
        text: cell.contents().to_string(),
        bold: cell.bold(),
        underline: cell.underline(),
        inverse: cell.inverse(),
        foreground: color(cell.fgcolor()),
        background: color(cell.bgcolor()),
    })
}

/// The cursor position from `vt100::Screen::cursor_position`: row, column.
#[verifier::external_body]
fn parser_cursor_position(parser: &Vt100Screen) -> (r: (u16, u16))
    ensures
        r == screen_cursor(*parser),
{
    parser.parser.screen().cursor_position()
}

/// Whether the application hid the cursor, from `vt100::Screen::hide_cursor`.
#[verifier::external_body]
fn parser_hide_cursor(parser: &Vt100Screen) -> (r: bool)
    ensures
        r == screen_hides_cursor(*parser),
{
    parser.parser.screen().hide_cursor()
}

/// Whether the alternate screen is shown, from `vt100::Screen::alternate_screen`.
#[verifier::external_body]
fn parser_alternate_screen(parser: &Vt100Screen) -> (r: bool)
    ensures
        r == screen_alternate(*parser),
{
    parser.parser.screen().alternate_screen()
}

/// Application cursor mode, from `vt100::Screen::application_cursor`.
#[verifier::external_body]
fn parser_application_cursor(parser: &Vt100Screen) -> (r: bool)
    ensures
        r == screen_application_cursor(*parser),
{
    parser.parser.screen().application_cursor()
}

/// Bracketed paste mode, from `vt100::Screen::bracketed_paste`.
#[verifier::external_body]
fn parser_bracketed_paste(parser: &Vt100Screen) -> (r: bool)
    ensures
        r == screen_bracketed_paste(*parser),
{
    parser.parser.screen().bracketed_paste()
}

/// The screen's text, from `vt100::Screen::contents`.
#[verifier::external_body]
fn parser_contents(parser: &Vt100Screen) -> (r: String)
    ensures
        r@ == screen_contents(*parser),
{
    parser.parser.screen().contents()
}

/// The cell that is drawn for a screen position: the screen's cell, or a
/// blank one where the screen has none.
pub fn render_cell_or_blank(cell: Option<RenderCell>) -> (r: RenderCell)
    ensures
        cell_view(r) == match cell {
            Some(c) => cell_view(c),
            None => blank_cell_view(),
        },
{
    match cell {
        Some(c) => c,
        None => RenderCell {
            text: " ".to_owned(),
            bold: false,
            underline: false,
            inverse: false,
            foreground: TerminalColor::Default,
            background: TerminalColor::Default,
        },
    }
}

/// A terminal screen fed with the child's output, and the snapshot that was
/// last drawn from it.
pub struct TerminalState {
    parser: Vt100Screen,
    last_snapshot: Option<RenderSnapshot>,
}

impl TerminalState {
    /// The parser.
    pub closed spec fn parser(&self) -> Vt100Screen {
        self.parser
    }

    /// The snapshot taken after the last output, if any since creation or
    /// the last resize.
    pub closed spec fn last_snapshot(&self) -> Option<RenderSnapshot> {
        self.last_snapshot
    }

    /// The last snapshot shows the screen as it is.
    pub closed spec fn wf(&self) -> bool {
        &&& supported_size(screen_size(self.parser).0, screen_size(self.parser).1)
        &&& self.last_snapshot matches Some(s) ==> shows_screen(s, self.parser)
    }

    /// A blank `rows` x `columns` terminal.
    pub fn new(rows: u16, columns: u16) -> (r: Self)
        requires
            supported_size(rows, columns),
        ensures
            r.wf(),
            screen_size(r.parser()) == (rows, columns),
            screen_cells(r.parser()) == blank_cells(rows, columns),
            screen_cursor(r.parser()) == (0u16, 0u16),
            !screen_hides_cursor(r.parser()),
            !screen_alternate(r.parser()),
            !screen_application_cursor(r.parser()),
            !screen_bracketed_paste(r.parser()),
            r.last_snapshot() is None,
    {
        TerminalState { parser: parser_new(rows, columns), last_snapshot: None }
    }

    /// Feeds the child's output to the screen and returns what to redraw:
    /// the whole grid after creation or a resize, else the diff from the
    /// last snapshot. The new snapshot is kept for the next diff.
    pub fn process_output(&mut self, bytes: &[u8]) -> (r: Vec<DirtyRect>)
        requires
            old(self).wf(),
        ensures
            final(self).wf(),
            final(self).last_snapshot() matches Some(next) && shows_screen(next, final(self).parser())
                && r@ == match old(self).last_snapshot() {
                Some(prev) => diff_spec(prev, next),
                None => seq![DirtyRect { x: 0, y: 0, width: next.columns, height: next.rows }],
            } && bottoms_at_most(r@, next.rows as int),
            screen_view(final(self).parser()) == processed_screen(old(self).parser(), bytes@),
            screen_size(final(self).parser()) == screen_size(old(self).parser()),
            old(self).last_snapshot() is Some ==> forall|before: RenderSnapshot, after: RenderSnapshot|
                shows_screen(before, old(self).parser()) && shows_screen(after, final(self).parser())
                    ==> r@ == #[trigger] diff_spec(before, after),
    {
        parser_process(&mut self.parser, bytes);
        let next = self.snapshot();
        let dirty = match &self.last_snapshot {
            Some(previous) => previous.diff(&next),
            None => {
                let mut all: Vec<DirtyRect> = Vec::new();
                all.push(DirtyRect::full(next.columns, next.rows));
                proof {
                    assert(all@ =~= seq![DirtyRect { x: 0, y: 0, width: next.columns, height: next.rows }]);
                }
                all
            },
        };
        proof {
            if let Some(prev) = old(self).last_snapshot {
                assert forall|before: RenderSnapshot, after: RenderSnapshot|
                    shows_screen(before, old(self).parser) && shows_screen(after, self.parser) implies dirty@
                    == #[trigger] diff_spec(before, after) by {
                    lemma_shown_screens_agree(prev, before, old(self).parser);
                    lemma_shown_screens_agree(next, after, self.parser);
                    lemma_diff_of_same_grids(prev, before, next, after);
                }
            }
        }
        self.last_snapshot = Some(next);
        dirty
    }

    /// Resizes the screen, keeping what fits; the next output redraws the
    /// whole grid.
    pub fn resize(&mut self, rows: u16, columns: u16)
        requires
            supported_size(rows, columns),
        ensures
            final(self).wf(),
            screen_size(final(self).parser()) == (rows, columns),
            resized_cells(
                screen_cells(old(self).parser()),
                screen_size(old(self).parser()),
                screen_cells(final(self).parser()),
                rows,
                columns,
            ),
            screen_cursor(final(self).parser()) == clamped_cursor(screen_cursor(old(self).parser()), rows, columns),
            screen_hides_cursor(final(self).parser()) == screen_hides_cursor(old(self).parser()),
            screen_alternate(final(self).parser()) == screen_alternate(old(self).parser()),
            screen_application_cursor(final(self).parser()) == screen_application_cursor(old(self).parser()),
            screen_bracketed_paste(final(self).parser()) == screen_bracketed_paste(old(self).parser()),
            final(self).last_snapshot() is None,
    {
        parser_set_size(&mut self.parser, rows, columns);
        self.last_snapshot = None;
    }

    /// The input modes the application has switched on.
    pub fn input_mode(&self) -> (r: TerminalInputMode)
        ensures
            r.application_cursor == screen_application_cursor(self.parser()),
            r.bracketed_paste == screen_bracketed_paste(self.parser()),
    {
        TerminalInputMode {
            application_cursor: parser_application_cursor(&self.parser),
            bracketed_paste: parser_bracketed_paste(&self.parser),
        }
    }

    /// The screen as a snapshot: every cell of its grid in row-major order,
    /// blank where the screen has none, with the cursor and screen mode.
    pub fn snapshot(&self) -> (r: RenderSnapshot)
        ensures
            shows_screen(r, self.parser()),
    {
        let (rows, columns) = parser_screen_size(&self.parser);
        let mut cells: Vec<RenderCell> = Vec::new();
        let mut row: u16 = 0;
        while row < rows
            invariant
                (rows, columns) == screen_size(self.parser),
                row <= rows,
                cells@.len() == row * columns,
                forall|r: u16, c: u16|
                    r < row && c < columns ==> #[trigger] cell_view(cells@[r * columns + c])
                        == if screen_cells(self.parser).dom().contains((r, c)) {
                        screen_cells(self.parser)[(r, c)]
                    } else {
                        blank_cell_view()
                    },
            decreases rows - row,
        {
            let mut column: u16 = 0;
            while column < columns
                invariant
                    (rows, columns) == screen_size(self.parser),
                    row < rows,
                    column <= columns,
                    cells@.len() == row * columns + column,
                    forall|r: u16, c: u16|
                        (r < row && c < columns) || (r == row && c < column) ==> #[trigger] cell_view(
                            cells@[r * columns + c],
                        ) == if screen_cells(self.parser).dom().contains((r, c)) {
                            screen_cells(self.parser)[(r, c)]
                        } else {
                            blank_cell_view()
                        },
                decreases columns - column,
            {
                let cell = parser_cell(&self.parser, row, column);
                let ghost before = cells@;
                cells.push(render_cell_or_blank(cell));
                proof {
                    assert forall|r: u16, c: u16|
                        (r < row && c < columns) || (r == row && c <= column) implies #[trigger] cell_view(
                            cells@[r * columns + c],
                        ) == if screen_cells(self.parser).dom().contains((r, c)) {
                            screen_cells(self.parser)[(r, c)]
                        } else {
                            blank_cell_view()
                        } by {
                        if r < row {
                            assert(r * columns + c < row * columns) by (nonlinear_arith)
                                requires
                                    r < row,
                                    c < columns,
                            ;
                            assert(cells@[r * columns + c] == before[r * columns + c]);
                        } else if c < column {
                            assert(cells@[r * columns + c] == before[r * columns + c]);
                        }
                    }
                }
                column = column + 1;
            }
            proof {
                vstd::arithmetic::mul::lemma_mul_is_distributive_add_other_way(columns as int, row as int, 1);
            }
            row = row + 1;
        }
        let (cursor_row, cursor_column) = parser_cursor_position(&self.parser);
        RenderSnapshot {
            rows,
            columns,
            cells,
            cursor_row,
            cursor_column,
            cursor_visible: !parser_hide_cursor(&self.parser),
            alternate_screen: parser_alternate_screen(&self.parser),
        }
    }

    /// The screen's text.
    pub fn contents(&self) -> (r: String)
        ensures
            r@ == screen_contents(self.parser()),
    {
        parser_contents(&self.parser)
    }
}

} // verus!
