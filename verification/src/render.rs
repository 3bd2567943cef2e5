//! Monochrome rendering of terminal snapshots into 8-bit grayscale frames.

use font8x8::UnicodeFonts;
use vstd::prelude::*;

use crate::refresh::{RenderCell, RenderSnapshot};

verus! {

pub const CELL_WIDTH: u32 = 8;

pub const CELL_HEIGHT: u32 = 12;

pub const COMPACT_CELL_WIDTH: u32 = 6;

pub const COMPACT_CELL_HEIGHT: u32 = 10;

/// The pixel size of a terminal cell and where its glyph sits in it.
#[derive(Debug, Clone, Copy, PartialEq, Eq, Structural)]
pub struct CellMetrics {
    pub width: u32,
    pub height: u32,
    pub glyph_width: u32,
    pub glyph_height: u32,
    pub y_offset: u32,
}

impl CellMetrics {
    /// The standard metrics.
    pub open spec fn standard_spec() -> CellMetrics {
        CellMetrics { width: CELL_WIDTH, height: CELL_HEIGHT, glyph_width: 8, glyph_height: 8, y_offset: 2 }
    }

    /// 8 x 12 cells with the full 8 x 8 glyph two pixels down.
    pub fn standard() -> (r: Self)
        ensures
            r == Self::standard_spec(),
    {
        CellMetrics { width: CELL_WIDTH, height: CELL_HEIGHT, glyph_width: 8, glyph_height: 8, y_offset: 2 }
    }

    /// 6 x 10 cells with the left 6 glyph columns one pixel down.
    pub fn compact() -> (r: Self)
        ensures
            r == (CellMetrics {
                width: COMPACT_CELL_WIDTH,
                height: COMPACT_CELL_HEIGHT,
                glyph_width: 6,
                glyph_height: 8,
                y_offset: 1,
            }),
    {
        CellMetrics {
            width: COMPACT_CELL_WIDTH,
            height: COMPACT_CELL_HEIGHT,
            glyph_width: 6,
            glyph_height: 8,
            y_offset: 1,
        }
    }
}

/// A grayscale frame: `width` x `height` luma bytes in row-major order.
#[derive(Debug, Clone)]
pub struct MonoFrame {
    width: u32,
    height: u32,
    pixels: Vec<u8>,
}

/// The abstract content of a frame.
pub struct MonoFrameView {
    pub width: int,
    pub height: int,
    pub pixels: Seq<u8>,
}

impl View for MonoFrame {
    type V = MonoFrameView;

    closed spec fn view(&self) -> MonoFrameView {
        MonoFrameView { width: self.width as int, height: self.height as int, pixels: self.pixels@ }
    }
}

impl MonoFrameView {
    /// The byte count matches the size.
    pub open spec fn wf(self) -> bool {
        self.pixels.len() == self.width * self.height
    }

    /// The luma of the pixel at column `x`, row `y`.
    pub open spec fn at(self, x: int, y: int) -> u8 {
        self.pixels[y * self.width + x]
    }

    /// Whether column `x`, row `y` lies in the frame.
    pub open spec fn in_bounds(self, x: int, y: int) -> bool {
        0 <= x < self.width && 0 <= y < self.height
    }
}

proof fn lemma_pixel_index(w: int, h: int, x: int, y: int)
    requires
        0 <= x < w,
        0 <= y < h,
    ensures
        0 <= y * w + x < w * h,
{
    assert(0 <= y * w + x < w * h) by (nonlinear_arith)
        requires
            0 <= x < w,
            0 <= y < h,
    ;
}

proof fn lemma_pixel_index_distinct(w: int, x1: int, y1: int, x2: int, y2: int)
    requires
        0 <= x1 < w,
        0 <= x2 < w,
        0 <= y1,
        0 <= y2,
        x1 != x2 || y1 != y2,
    ensures
        y1 * w + x1 != y2 * w + x2,
{
    if y1 == y2 {
    } else if y1 < y2 {
        assert(y1 * w + x1 < y2 * w + x2) by (nonlinear_arith)
            requires
                0 <= x1 < w,
                0 <= x2,
                y1 < y2,
        ;
    } else {
        assert(y2 * w + x2 < y1 * w + x1) by (nonlinear_arith)
            requires
                0 <= x2 < w,
                0 <= x1,
                y2 < y1,
        ;
    }
}

impl MonoFrame {
    /// A `width` x `height` frame filled with `value`.
    pub fn from_pixel(width: u32, height: u32, value: u8) -> (r: Self)
        requires
            width * height <= usize::MAX,
        ensures
            r@.width == width,
            r@.height == height,
            r@.wf(),
            forall|x: int, y: int| r@.in_bounds(x, y) ==> #[trigger] r@.at(x, y) == value,
    {
        let n = width as usize * height as usize;
        let mut pixels: Vec<u8> = Vec::new();
        let mut i: usize = 0;
        while i < n
            invariant
                i <= n,
                n == width * height,
                pixels@.len() == i,
                forall|k: int| 0 <= k < i ==> pixels@[k] == value,
            decreases n - i,
        {
            pixels.push(value);
            i = i + 1;
        }
        let r = MonoFrame { width, height, pixels };
        proof {
            assert forall|x: int, y: int| r@.in_bounds(x, y) implies #[trigger] r@.at(x, y) == value by {
                lemma_pixel_index(width as int, height as int, x, y);
            }
        }
        r
    }

    /// The frame's width in pixels.
    pub fn width(&self) -> (r: u32)
        ensures
            r == self@.width,
    {
        self.width
    }

    /// The frame's height in pixels.
    pub fn height(&self) -> (r: u32)
        ensures
            r == self@.height,
    {
        self.height
    }

    /// The luma bytes, row by row.
    pub fn pixels(&self) -> (r: &[u8])
        ensures
            r@ == self@.pixels,
    {
        self.pixels.as_slice()
    }

    /// The luma of the pixel at column `x`, row `y`.
    pub fn get_pixel(&self, x: u32, y: u32) -> (r: u8)
        requires
            self@.wf(),
            self@.in_bounds(x as int, y as int),
        ensures
            r == self@.at(x as int, y as int),
    {
        let len = self.pixels.len();
        proof {
            lemma_pixel_index(self.width as int, self.height as int, x as int, y as int);
            assert(y * self.width <= y * self.width + x);
        }
        self.pixels[y as usize * self.width as usize + x as usize]
    }

    /// Sets the pixel at column `x`, row `y`.
    pub fn put_pixel(&mut self, x: u32, y: u32, value: u8)
        requires
            old(self)@.wf(),
            old(self)@.in_bounds(x as int, y as int),
        ensures
            final(self)@.width == old(self)@.width,
            final(self)@.height == old(self)@.height,
            final(self)@.wf(),
            forall|px: int, py: int|
                final(self)@.in_bounds(px, py) ==> #[trigger] final(self)@.at(px, py) == if px == x
                    && py == y {
                    value
                } else {
                    old(self)@.at(px, py)
                },
    {
        let len = self.pixels.len();
        proof {
            lemma_pixel_index(self.width as int, self.height as int, x as int, y as int);
            assert(y * self.width <= y * self.width + x);
        }
        let idx = y as usize * self.width as usize + x as usize;
        self.pixels.set(idx, value);
        proof {
            assert forall|px: int, py: int| self@.in_bounds(px, py) implies #[trigger] self@.at(px, py)
                == if px == x && py == y {
                value
            } else {
                old(self)@.at(px, py)
            } by {
                lemma_pixel_index(self.width as int, self.height as int, px, py);
                if px != x || py != y {
                    lemma_pixel_index_distinct(self.width as int, px, py, x as int, y as int);
                }
            }
        }
    }
}

/// Sets a pixel where it lies in the frame; does nothing elsewhere.
fn put_pixel_checked(image: &mut MonoFrame, x: u32, y: u32, value: u8)
    requires
        old(image)@.wf(),
    ensures
        final(image)@.width == old(image)@.width,
        final(image)@.height == old(image)@.height,
        final(image)@.wf(),
        forall|px: int, py: int|
            final(image)@.in_bounds(px, py) ==> #[trigger] final(image)@.at(px, py) == if px == x
                && py == y {
                value
            } else {
                old(image)@.at(px, py)
            },
{
    if x < image.width() && y < image.height() {
        image.put_pixel(x, y, value);
    }
}

/// Whether column `x`, row `y` lies in the rectangle.
pub open spec fn in_rect(x: int, y: int, left: int, top: int, width: int, height: int) -> bool {
    left <= x < left + width && top <= y < top + height
}

/// Fills the part of the rectangle that lies in the frame.
fn fill_rect(image: &mut MonoFrame, x: u32, y: u32, width: u32, height: u32, value: u8)
    requires
        old(image)@.wf(),
        x + width <= u32::MAX,
        y + height <= u32::MAX,
    ensures
        final(image)@.width == old(image)@.width,
        final(image)@.height == old(image)@.height,
        final(image)@.wf(),
        forall|px: int, py: int|
            final(image)@.in_bounds(px, py) ==> #[trigger] final(image)@.at(px, py) == if in_rect(
                px,
                py,
                x as int,
                y as int,
                width as int,
                height as int,
            ) {
                value
            } else {
                old(image)@.at(px, py)
            },
{
    let ghost start = image@;
    let mut py: u32 = y;
    while py < y + height
        invariant
            y <= py <= y + height,
            y + height <= u32::MAX,
            x + width <= u32::MAX,
            image@.width == start.width,
            image@.height == start.height,
            image@.wf(),
            forall|qx: int, qy: int|
                image@.in_bounds(qx, qy) ==> #[trigger] image@.at(qx, qy) == if in_rect(
                    qx,
                    qy,
                    x as int,
                    y as int,
                    width as int,
                    py - y,
                ) {
                    value
                } else {
                    start.at(qx, qy)
                },
        decreases y + height - py,
    {
        let mut px: u32 = x;
        while px < x + width
            invariant
                y <= py < y + height,
                x <= px <= x + width,
                y + height <= u32::MAX,
                x + width <= u32::MAX,
                image@.width == start.width,
                image@.height == start.height,
                image@.wf(),
                forall|qx: int, qy: int|
                    image@.in_bounds(qx, qy) ==> #[trigger] image@.at(qx, qy) == if in_rect(
                        qx,
                        qy,
                        x as int,
                        y as int,
                        width as int,
                        py - y,
                    ) || in_rect(qx, qy, x as int, py as int, px - x, 1) {
                        value
                    } else {
                        start.at(qx, qy)
                    },
            decreases x + width - px,
        {
            put_pixel_checked(image, px, py, value);
            px = px + 1;
        }
        py = py + 1;
    }
}

/// The glyph of `ch` in the basic 8x8 font, if it has one: eight rows top
/// to bottom, bit `i` of a row being pixel column `i`.
pub uninterp spec fn font_glyph(ch: char) -> Option<[u8; 8]>;

/// Looks up `ch` in `font8x8::BASIC_FONTS`.
#[verifier::external_body]
fn basic_font_glyph(ch: char) -> (r: Option<[u8; 8]>)
    ensures
        r == font_glyph(ch),
{
    font8x8::BASIC_FONTS.get(ch)
}

/// The character a cell shows: the first of its text, a space if empty.
pub open spec fn first_char(text: Seq<char>) -> char {
    if text.len() > 0 {
        text[0]
    } else {
        ' '
    }
}

fn first_char_of(text: &String) -> (r: char)
    ensures
        r == first_char(text@),
{
    broadcast use vstd::string::group_string_axioms;

    let mut chars = text.as_str().chars();
    match chars.next() {
        Some(c) => c,
        None => ' ',
    }
}

/// Whether pixel column `column` of a glyph row is set.
pub open spec fn glyph_bit(bits: u8, column: int) -> bool {
    0 <= column < 8 && (bits >> (column as u8)) & 1u8 == 1u8
}

proof fn lemma_glyph_bit(bits: u8, column: u32)
    requires
        column < 8,
    ensures
        (bits & (1u8 << (column as u8)) != 0) == glyph_bit(bits, column as int),
{
    let c = column as u8;
    assert((bits & (1u8 << c) != 0) == ((bits >> c) & 1u8 == 1u8)) by (bit_vector)
        requires
            c < 8,
    ;
}

/// Whether the glyph sets the pixel at offset `dx`, `dy` from the glyph's
/// top-left corner: a set bit among the first `glyph_width` columns of the
/// first `glyph_height` rows (at most 8), or, in bold, the pixel right of
/// one that is still within `glyph_width`.
pub open spec fn glyph_covers(glyph: Option<[u8; 8]>, metrics: CellMetrics, bold: bool, dx: int, dy: int) -> bool {
    match glyph {
        Some(g) => 0 <= dy < 8 && dy < metrics.glyph_height && ((0 <= dx < metrics.glyph_width
            && glyph_bit(g@[dy], dx)) || (bold && 1 <= dx < metrics.glyph_width && glyph_bit(
            g@[dy],
            dx - 1,
        ))),
        None => false,
    }
}

/// The glyph pixels drawn once rows before `rows_done`, and columns before
/// `columns_done` of row `rows_done`, have been processed.
pub open spec fn glyph_drawn(
    g: [u8; 8],
    metrics: CellMetrics,
    bold: bool,
    dx: int,
    dy: int,
    rows_done: int,
    columns_done: int,
) -> bool {
    &&& 0 <= dy < 8
    &&& ((0 <= dx < metrics.glyph_width && glyph_bit(g@[dy], dx) && (dy < rows_done || (dy
        == rows_done && dx < columns_done))) || (bold && 1 <= dx < metrics.glyph_width
        && glyph_bit(g@[dy], dx - 1) && (dy < rows_done || (dy == rows_done && dx - 1
        < columns_done))))
}

/// The row of a cell its underline takes: two above the bottom edge, or
/// the top row of cells less than two pixels high.
pub open spec fn underline_offset(metrics: CellMetrics) -> int {
    if metrics.height >= 2 {
        metrics.height - 2
    } else {
        0
    }
}

/// Whether the cell at `row`, `column` is drawn inverted: its own inverse
/// attribute, flipped where the visible cursor stands.
pub open spec fn cell_inverted(snapshot: RenderSnapshot, row: int, column: int, cell: RenderCell) -> bool {
    cell.inverse != (snapshot.cursor_visible && snapshot.cursor_row == row && snapshot.cursor_column
        == column)
}

/// The pixel at `x`, `y` after drawing the cell at `row`, `column` over a
/// pixel of value `below`: the cell's rectangle takes the background (white,
/// or black when inverted), its glyph and underline the foreground.
pub open spec fn cell_pixel(
    snapshot: RenderSnapshot,
    metrics: CellMetrics,
    row: int,
    column: int,
    below: u8,
    x: int,
    y: int,
) -> u8 {
    let cell = snapshot.cells@[row * snapshot.columns + column];
    let inverted = cell_inverted(snapshot, row, column, cell);
    let x0 = column * metrics.width;
    let y0 = row * metrics.height;
    if (cell.underline && in_rect(x, y, x0, y0 + underline_offset(metrics), metrics.width as int, 1))
        || glyph_covers(
        font_glyph(first_char(cell.text@)),
        metrics,
        cell.bold,
        x - x0,
        y - y0 - metrics.y_offset,
    ) {
        if inverted {
            255
        } else {
            0
        }
    } else if in_rect(x, y, x0, y0, metrics.width as int, metrics.height as int) {
        if inverted {
            0
        } else {
            255
        }
    } else {
        below
    }
}

/// The pixel at `x`, `y` of a white frame after drawing the first `count`
/// cells of the snapshot in row-major order.
pub open spec fn rendered_pixel(snapshot: RenderSnapshot, metrics: CellMetrics, count: int, x: int, y: int) -> u8
    decreases count,
{
    if count <= 0 || snapshot.columns == 0 {
        255
    } else {
        cell_pixel(
            snapshot,
            metrics,
            (count - 1) / snapshot.columns as int,
            (count - 1) % snapshot.columns as int,
            rendered_pixel(snapshot, metrics, count - 1, x, y),
            x,
            y,
        )
    }
}

/// No pixel coordinate of drawing a `rows` x `columns` grid overflows `u32`,
/// and glyphs are at most 8 pixels wide.
pub open spec fn render_fits(rows: int, columns: int, metrics: CellMetrics) -> bool {
    &&& columns * metrics.width <= u32::MAX
    &&& rows * metrics.height <= u32::MAX
    &&& metrics.glyph_width <= 8
    &&& (columns > 0 ==> (columns - 1) * metrics.width + metrics.glyph_width <= u32::MAX)
    &&& (rows > 0 ==> (rows - 1) * metrics.height + 7 + metrics.y_offset <= u32::MAX)
}

proof fn lemma_cell_origin(index: int, count: int, size: int)
    requires
        0 <= index < count,
        0 <= size,
    ensures
        index * size + size <= count * size,
        index * size <= (count - 1) * size,
        0 <= index * size,
{
    assert(index * size + size <= count * size) by (nonlinear_arith)
        requires
            0 <= index < count,
            0 <= size,
    ;
    assert(index * size <= (count - 1) * size) by (nonlinear_arith)
        requires
            0 <= index < count,
            0 <= size,
    ;
    assert(0 <= index * size) by (nonlinear_arith)
        requires
            0 <= index,
            0 <= size,
    ;
}

fn draw_cell(
    image: &mut MonoFrame,
    snapshot: &RenderSnapshot,
    row: u16,
    column: u16,
    idx: usize,
    metrics: CellMetrics,
)
    requires
        old(image)@.wf(),
        row < snapshot.rows,
        column < snapshot.columns,
        idx == row * snapshot.columns + column,
        idx < snapshot.cells.len(),
        render_fits(snapshot.rows as int, snapshot.columns as int, metrics),
    ensures
        final(image)@.width == old(image)@.width,
        final(image)@.height == old(image)@.height,
        final(image)@.wf(),
        forall|x: int, y: int|
            final(image)@.in_bounds(x, y) ==> #[trigger] final(image)@.at(x, y) == cell_pixel(
                *snapshot,
                metrics,
                row as int,
                column as int,
                old(image)@.at(x, y),
                x,
                y,
            ),
{
    let ghost start = image@;
    let cell = &snapshot.cells[idx];
    let cursor_here = snapshot.cursor_visible && snapshot.cursor_row == row && snapshot.cursor_column
        == column;
    let inverse = cell.inverse != cursor_here;
    let background: u8 = if inverse {
        0
    } else {
        255
    };
    let foreground: u8 = if inverse {
        255
    } else {
        0
    };
    proof {
        lemma_cell_origin(column as int, snapshot.columns as int, metrics.width as int);
        lemma_cell_origin(row as int, snapshot.rows as int, metrics.height as int);
    }
    let x0 = column as u32 * metrics.width;
    let y0 = row as u32 * metrics.height;
    fill_rect(image, x0, y0, metrics.width, metrics.height, background);
    let ghost filled = image@;
    let ch = first_char_of(&cell.text);
    let glyph = basic_font_glyph(ch);
    if let Some(g) = glyph {
        let mut gy: usize = 0;
        while gy < 8 && (gy as u32) < metrics.glyph_height
            invariant
                0 <= gy <= 8,
                gy <= metrics.glyph_height,
                image@.width == start.width,
                image@.height == start.height,
                image@.wf(),
                render_fits(snapshot.rows as int, snapshot.columns as int, metrics),
                row < snapshot.rows,
                column < snapshot.columns,
                x0 == column * metrics.width,
                y0 == row * metrics.height,
                x0 <= (snapshot.columns - 1) * metrics.width,
                y0 <= (snapshot.rows - 1) * metrics.height,
                forall|x: int, y: int|
                    image@.in_bounds(x, y) ==> #[trigger] image@.at(x, y) == if glyph_drawn(
                        g,
                        metrics,
                        cell.bold,
                        x - x0,
                        y - y0 - metrics.y_offset,
                        gy as int,
                        0,
                    ) {
                        foreground
                    } else {
                        filled.at(x, y)
                    },
            decreases 8 - gy,
        {
            let bits = g[gy];
            let py = y0 + gy as u32 + metrics.y_offset;
            let mut gx: u32 = 0;
            while gx < metrics.glyph_width
                invariant
                    0 <= gy < 8,
                    gy < metrics.glyph_height,
                    gx <= metrics.glyph_width,
                    bits == g@[gy as int],
                    py == y0 + gy + metrics.y_offset,
                    image@.width == start.width,
                    image@.height == start.height,
                    image@.wf(),
                    render_fits(snapshot.rows as int, snapshot.columns as int, metrics),
                    row < snapshot.rows,
                    column < snapshot.columns,
                    x0 == column * metrics.width,
                    x0 <= (snapshot.columns - 1) * metrics.width,
                    forall|x: int, y: int|
                        image@.in_bounds(x, y) ==> #[trigger] image@.at(x, y) == if glyph_drawn(
                            g,
                            metrics,
                            cell.bold,
                            x - x0,
                            y - y0 - metrics.y_offset,
                            gy as int,
                            gx as int,
                        ) {
                            foreground
                        } else {
                            filled.at(x, y)
                        },
                decreases metrics.glyph_width - gx,
            {
                proof {
                    lemma_glyph_bit(bits, gx);
                }
                if bits & (1u8 << (gx as u8)) != 0 {
                    let px = x0 + gx;
                    put_pixel_checked(image, px, py, foreground);
                    if cell.bold && gx + 1 < metrics.glyph_width {
                        put_pixel_checked(image, px + 1, py, foreground);
                    }
                }
                gx = gx + 1;
            }
            gy = gy + 1;
        }
    }
    let ghost glyphed = image@;
    proof {
        assert forall|x: int, y: int| image@.in_bounds(x, y) implies #[trigger] image@.at(x, y) == if glyph_covers(
            glyph,
            metrics,
            cell.bold,
            x - x0,
            y - y0 - metrics.y_offset,
        ) {
            foreground
        } else {
            filled.at(x, y)
        } by {
        }
    }
    if cell.underline {
        let underline_y = y0 + if metrics.height >= 2 {
            metrics.height - 2
        } else {
            0
        };
        fill_rect(image, x0, underline_y, metrics.width, 1, foreground);
    }
}

/// Glyph, bold and underline pixels all fall inside the cell.
pub open spec fn metrics_contained(metrics: CellMetrics) -> bool {
    &&& metrics.glyph_width <= metrics.width
    &&& metrics.height >= 1
    &&& metrics.y_offset + (if metrics.glyph_height < 8 {
        metrics.glyph_height as int
    } else {
        8
    }) <= metrics.height
}

/// The rectangle of the cell at `row`, `column`.
pub open spec fn in_cell(metrics: CellMetrics, row: int, column: int, x: int, y: int) -> bool {
    in_rect(
        x,
        y,
        column * metrics.width,
        row * metrics.height,
        metrics.width as int,
        metrics.height as int,
    )
}

proof fn lemma_cell_pixel_outside(
    snapshot: RenderSnapshot,
    metrics: CellMetrics,
    row: int,
    column: int,
    below: u8,
    x: int,
    y: int,
)
    requires
        metrics_contained(metrics),
        !in_cell(metrics, row, column, x, y),
    ensures
        cell_pixel(snapshot, metrics, row, column, below, x, y) == below,
{
}

proof fn lemma_cell_pixel_inside(
    snapshot: RenderSnapshot,
    metrics: CellMetrics,
    row: int,
    column: int,
    below: u8,
    x: int,
    y: int,
)
    requires
        in_cell(metrics, row, column, x, y),
    ensures
        cell_pixel(snapshot, metrics, row, column, below, x, y) == cell_pixel(
            snapshot,
            metrics,
            row,
            column,
            255,
            x,
            y,
        ),
{
}

proof fn lemma_cell_of_index(k: int, rows: int, columns: int)
    requires
        0 <= k < rows * columns,
        columns > 0,
    ensures
        0 <= k / columns < rows,
        0 <= k % columns < columns,
        k == (k / columns) * columns + k % columns,
{
    vstd::arithmetic::div_mod::lemma_fundamental_div_mod(k, columns);
    vstd::arithmetic::div_mod::lemma_mod_bound(k, columns);
    vstd::arithmetic::div_mod::lemma_div_pos_is_pos(k, columns);
    let q = k / columns;
    let r = k % columns;
    assert(q < rows) by (nonlinear_arith)
        requires
            k == columns * q + r,
            0 <= r,
            k < rows * columns,
            columns > 0,
    ;
    assert(k == q * columns + r) by (nonlinear_arith)
        requires
            k == columns * q + r,
    ;
}

proof fn lemma_cells_disjoint(metrics: CellMetrics, r1: int, c1: int, r2: int, c2: int, x: int, y: int)
    requires
        metrics.width > 0,
        metrics.height > 0,
        in_cell(metrics, r1, c1, x, y),
        in_cell(metrics, r2, c2, x, y),
    ensures
        r1 == r2,
        c1 == c2,
{
    let w = metrics.width as int;
    let h = metrics.height as int;
    if c1 < c2 {
        assert(c1 * w + w <= c2 * w) by (nonlinear_arith)
            requires
                c1 < c2,
                w > 0,
        ;
    } else if c2 < c1 {
        assert(c2 * w + w <= c1 * w) by (nonlinear_arith)
            requires
                c2 < c1,
                w > 0,
        ;
    }
    if r1 < r2 {
        assert(r1 * h + h <= r2 * h) by (nonlinear_arith)
            requires
                r1 < r2,
                h > 0,
        ;
    } else if r2 < r1 {
        assert(r2 * h + h <= r1 * h) by (nonlinear_arith)
            requires
                r2 < r1,
                h > 0,
        ;
    }
}

/// With glyphs that stay inside their cells, every pixel of the frame
/// outside the cell grid stays white.
pub proof fn lemma_render_outside_grid_is_white(
    snapshot: RenderSnapshot,
    metrics: CellMetrics,
    count: int,
    x: int,
    y: int,
)
    requires
        metrics_contained(metrics),
        0 <= count <= snapshot.rows * snapshot.columns,
        x >= snapshot.columns * metrics.width || y >= snapshot.rows * metrics.height,
    ensures
        rendered_pixel(snapshot, metrics, count, x, y) == 255,
    decreases count,
{
    if count > 0 && snapshot.columns > 0 {
        let k = count - 1;
        lemma_render_outside_grid_is_white(snapshot, metrics, k, x, y);
        lemma_cell_of_index(k, snapshot.rows as int, snapshot.columns as int);
        let r = k / snapshot.columns as int;
        let c = k % snapshot.columns as int;
        lemma_cell_origin(c, snapshot.columns as int, metrics.width as int);
        lemma_cell_origin(r, snapshot.rows as int, metrics.height as int);
        lemma_cell_pixel_outside(snapshot, metrics, r, c, 255, x, y);
    }
}

proof fn lemma_render_cell_settled(
    snapshot: RenderSnapshot,
    metrics: CellMetrics,
    row: int,
    column: int,
    count: int,
    x: int,
    y: int,
)
    requires
        metrics_contained(metrics),
        metrics.width > 0,
        0 <= row < snapshot.rows,
        0 <= column < snapshot.columns,
        row * snapshot.columns + column < count <= snapshot.rows * snapshot.columns,
        in_cell(metrics, row, column, x, y),
    ensures
        rendered_pixel(snapshot, metrics, count, x, y) == cell_pixel(
            snapshot,
            metrics,
            row,
            column,
            255,
            x,
            y,
        ),
    decreases count,
{
    let k = count - 1;
    lemma_cell_of_index(k, snapshot.rows as int, snapshot.columns as int);
    let r = k / snapshot.columns as int;
    let c = k % snapshot.columns as int;
    if k == row * snapshot.columns + column {
        vstd::arithmetic::div_mod::lemma_fundamental_div_mod_converse(
            k,
            snapshot.columns as int,
            row,
            column,
        );
        lemma_cell_pixel_inside(
            snapshot,
            metrics,
            row,
            column,
            rendered_pixel(snapshot, metrics, k, x, y),
            x,
            y,
        );
    } else {
        lemma_render_cell_settled(snapshot, metrics, row, column, k, x, y);
        if in_cell(metrics, r, c, x, y) {
            lemma_cells_disjoint(metrics, r, c, row, column, x, y);
        }
        lemma_cell_pixel_outside(snapshot, metrics, r, c, rendered_pixel(snapshot, metrics, k, x, y), x, y);
    }
}

/// With glyphs that stay inside their cells, each pixel of a cell depends
/// on that cell alone: it is the cell drawn over white.
pub proof fn lemma_render_cell_locality(
    snapshot: RenderSnapshot,
    metrics: CellMetrics,
    row: int,
    column: int,
    x: int,
    y: int,
)
    requires
        metrics_contained(metrics),
        metrics.width > 0,
        0 <= row < snapshot.rows,
        0 <= column < snapshot.columns,
        in_cell(metrics, row, column, x, y),
    ensures
        rendered_pixel(snapshot, metrics, snapshot.rows * snapshot.columns, x, y) == cell_pixel(
            snapshot,
            metrics,
            row,
            column,
            255,
            x,
            y,
        ),
{
    vstd::arithmetic::mul::lemma_mul_inequality(row + 1, snapshot.rows as int, snapshot.columns as int);
    vstd::arithmetic::mul::lemma_mul_is_distributive_add_other_way(snapshot.columns as int, row, 1);
    lemma_render_cell_settled(snapshot, metrics, row, column, snapshot.rows * snapshot.columns, x, y);
}

/// Renders the snapshot into a `width` x `height` white frame, cell by cell
/// in row-major order, each cell at its grid position; what falls outside
/// the frame is cut off.
pub fn render_snapshot_to_mono_canvas(
    snapshot: &RenderSnapshot,
    metrics: CellMetrics,
    width: u32,
    height: u32,
) -> (r: MonoFrame)
    requires
        snapshot.has_grid(),
        render_fits(snapshot.rows as int, snapshot.columns as int, metrics),
        width * height <= usize::MAX,
    ensures
        r@.width == width,
        r@.height == height,
        r@.wf(),
        forall|x: int, y: int|
            r@.in_bounds(x, y) ==> #[trigger] r@.at(x, y) == rendered_pixel(
                *snapshot,
                metrics,
                snapshot.rows * snapshot.columns,
                x,
                y,
            ),
{
    let mut image = MonoFrame::from_pixel(width, height, 255);
    let mut row: u16 = 0;
    while row < snapshot.rows
        invariant
            snapshot.has_grid(),
            render_fits(snapshot.rows as int, snapshot.columns as int, metrics),
            row <= snapshot.rows,
            image@.width == width,
            image@.height == height,
            image@.wf(),
            forall|x: int, y: int|
                image@.in_bounds(x, y) ==> #[trigger] image@.at(x, y) == rendered_pixel(
                    *snapshot,
                    metrics,
                    row * snapshot.columns,
                    x,
                    y,
                ),
        decreases snapshot.rows - row,
    {
        let mut column: u16 = 0;
        while column < snapshot.columns
            invariant
                snapshot.has_grid(),
                render_fits(snapshot.rows as int, snapshot.columns as int, metrics),
                row < snapshot.rows,
                column <= snapshot.columns,
                image@.width == width,
                image@.height == height,
                image@.wf(),
                forall|x: int, y: int|
                    image@.in_bounds(x, y) ==> #[trigger] image@.at(x, y) == rendered_pixel(
                        *snapshot,
                        metrics,
                        row * snapshot.columns + column,
                        x,
                        y,
                    ),
            decreases snapshot.columns - column,
        {
            proof {
                vstd::arithmetic::mul::lemma_mul_inequality(
                    row as int + 1,
                    snapshot.rows as int,
                    snapshot.columns as int,
                );
                vstd::arithmetic::mul::lemma_mul_is_distributive_add_other_way(
                    snapshot.columns as int,
                    row as int,
                    1,
                );
                vstd::arithmetic::div_mod::lemma_fundamental_div_mod_converse(
                    row * snapshot.columns + column,
                    snapshot.columns as int,
                    row as int,
                    column as int,
                );
            }
            let idx = (row as usize * snapshot.columns as usize) + column as usize;
            draw_cell(&mut image, snapshot, row, column, idx, metrics);
            column = column + 1;
        }
        proof {
            vstd::arithmetic::mul::lemma_mul_is_distributive_add_other_way(
                snapshot.columns as int,
                row as int,
                1,
            );
        }
        row = row + 1;
    }
    image
}

/// Whether a `rows` x `columns` grid of `metrics` cells can be rendered:
/// every pixel coordinate fits in `u32`, the glyph is at most the font's
/// eight columns wide, and the frame's pixel count fits in memory indices.
pub fn render_fits_grid(rows: u16, columns: u16, metrics: CellMetrics) -> (r: bool)
    ensures
        r == (render_fits(rows as int, columns as int, metrics) && (columns * metrics.width) * (
        rows * metrics.height) <= usize::MAX),
{
    let c: u64 = columns as u64;
    let rw: u64 = rows as u64;
    let w: u64 = metrics.width as u64;
    let h: u64 = metrics.height as u64;
    proof {
        vstd::arithmetic::mul::lemma_mul_upper_bound(c as int, 0xffff, w as int, 0xffff_ffff);
        vstd::arithmetic::mul::lemma_mul_upper_bound(rw as int, 0xffff, h as int, 0xffff_ffff);
    }
    let total_width: u64 = c * w;
    let total_height: u64 = rw * h;
    if total_width > 0xffff_ffff || total_height > 0xffff_ffff || metrics.glyph_width > 8 {
        return false;
    }
    if c > 0 {
        assert((c - 1) * w == total_width - w && w <= total_width) by (nonlinear_arith)
            requires
                total_width == c * w,
                c > 0,
        ;
    }
    if rw > 0 {
        assert((rw - 1) * h == total_height - h && h <= total_height) by (nonlinear_arith)
            requires
                total_height == rw * h,
                rw > 0,
        ;
    }
    if c > 0 && total_width - w + metrics.glyph_width as u64 > 0xffff_ffff {
        return false;
    }
    if rw > 0 && total_height - h + 7 + metrics.y_offset as u64 > 0xffff_ffff {
        return false;
    }
    proof {
        vstd::arithmetic::mul::lemma_mul_upper_bound(
            total_width as int,
            0xffff_ffff,
            total_height as int,
            0xffff_ffff,
        );
    }
    let pixels: u128 = total_width as u128 * total_height as u128;
    pixels <= usize::MAX as u128
}

/// In every cell of the rendered grid, the pixels its glyph or underline
/// sets take the foreground, the others the background, and the two are
/// opposite: the background is white and the foreground black, swapped
/// where the cell is inverse video or, exclusively, the visible cursor
/// stands on it.
pub proof fn lemma_rendered_cell_colors(
    snapshot: RenderSnapshot,
    metrics: CellMetrics,
    row: int,
    column: int,
    x: int,
    y: int,
)
    requires
        metrics_contained(metrics),
        metrics.width > 0,
        0 <= row < snapshot.rows,
        0 <= column < snapshot.columns,
        column * metrics.width <= x < (column + 1) * metrics.width,
        row * metrics.height <= y < (row + 1) * metrics.height,
    ensures
        ({
            let cell = snapshot.cells@[row * snapshot.columns + column];
            let cursor_here = snapshot.cursor_visible && snapshot.cursor_row == row
                && snapshot.cursor_column == column;
            let inverted = cell.inverse != cursor_here;
            let background: u8 = if inverted { 0 } else { 255 };
            let foreground: u8 = if inverted { 255 } else { 0 };
            let x0 = column * metrics.width;
            let y0 = row * metrics.height;
            let set = (cell.underline && y == y0 + underline_offset(metrics)) || glyph_covers(
                font_glyph(first_char(cell.text@)),
                metrics,
                cell.bold,
                x - x0,
                y - y0 - metrics.y_offset,
            );
            &&& foreground == 255 - background
            &&& rendered_pixel(snapshot, metrics, snapshot.rows * snapshot.columns, x, y) == if set {
                foreground
            } else {
                background
            }
        }),
{
    assert(column * metrics.width + metrics.width == (column + 1) * metrics.width) by (nonlinear_arith);
    assert(row * metrics.height + metrics.height == (row + 1) * metrics.height) by (nonlinear_arith);
    assert(in_cell(metrics, row, column, x, y));
    assert(metrics.height >= 2 ==> metrics.height - 2 < metrics.height);
    lemma_render_cell_locality(snapshot, metrics, row, column, x, y);
}

/// Renders the snapshot into a frame exactly the size of its cell grid.
pub fn render_snapshot_to_mono_with_metrics(snapshot: &RenderSnapshot, metrics: CellMetrics) -> (r: MonoFrame)
    requires
        snapshot.has_grid(),
        render_fits(snapshot.rows as int, snapshot.columns as int, metrics),
        (snapshot.columns * metrics.width) * (snapshot.rows * metrics.height) <= usize::MAX,
    ensures
        r@.width == snapshot.columns * metrics.width,
        r@.height == snapshot.rows * metrics.height,
        r@.wf(),
        forall|x: int, y: int|
            r@.in_bounds(x, y) ==> #[trigger] r@.at(x, y) == rendered_pixel(
                *snapshot,
                metrics,
                snapshot.rows * snapshot.columns,
                x,
                y,
            ),
{
    let width = snapshot.columns as u32 * metrics.width;
    let height = snapshot.rows as u32 * metrics.height;
    render_snapshot_to_mono_canvas(snapshot, metrics, width, height)
}

/// Renders the snapshot with the standard 8 x 12 cells.
pub fn render_snapshot_to_mono(snapshot: &RenderSnapshot) -> (r: MonoFrame)
    requires
        snapshot.has_grid(),
        render_fits(snapshot.rows as int, snapshot.columns as int, CellMetrics::standard_spec()),
        (snapshot.columns * CELL_WIDTH) * (snapshot.rows * CELL_HEIGHT) <= usize::MAX,
    ensures
        r@.width == snapshot.columns * CELL_WIDTH,
        r@.height == snapshot.rows * CELL_HEIGHT,
        r@.wf(),
        forall|x: int, y: int|
            r@.in_bounds(x, y) ==> #[trigger] r@.at(x, y) == rendered_pixel(
                *snapshot,
                CellMetrics::standard_spec(),
                snapshot.rows * snapshot.columns,
                x,
                y,
            ),
{
    render_snapshot_to_mono_with_metrics(snapshot, CellMetrics::standard())
}

} // verus!
