use font8x8::UnicodeFonts;
use termpaper::refresh::{RenderCell, RenderSnapshot, TerminalColor};
use termpaper::render::{
    render_snapshot_to_mono, render_snapshot_to_mono_canvas, render_snapshot_to_mono_with_metrics,
    CellMetrics, MonoFrame, CELL_HEIGHT, CELL_WIDTH, COMPACT_CELL_HEIGHT, COMPACT_CELL_WIDTH,
};

fn cell(text: &str) -> RenderCell {
    RenderCell {
        text: text.to_string(),
        bold: false,
        underline: false,
        inverse: false,
        foreground: TerminalColor::Default,
        background: TerminalColor::Default,
    }
}

fn snapshot(rows: u16, columns: u16, cells: Vec<RenderCell>) -> RenderSnapshot {
    RenderSnapshot {
        rows,
        columns,
        cells,
        cursor_row: 0,
        cursor_column: 0,
        cursor_visible: false,
        alternate_screen: false,
    }
}

#[test]
fn renders_snapshot_at_stable_cell_dimensions() {
    let snapshot = RenderSnapshot {
        rows: 2,
        columns: 3,
        cells: vec![cell("A"); 6],
        cursor_row: 0,
        cursor_column: 0,
        cursor_visible: false,
        alternate_screen: false,
    };

    let frame = render_snapshot_to_mono(&snapshot);

    assert_eq!(frame.width(), 3 * CELL_WIDTH);
    assert_eq!(frame.height(), 2 * CELL_HEIGHT);
}

#[test]
fn renders_compact_snapshot_at_stable_cell_dimensions() {
    let snapshot = RenderSnapshot {
        rows: 2,
        columns: 3,
        cells: vec![cell("A"); 6],
        cursor_row: 0,
        cursor_column: 0,
        cursor_visible: false,
        alternate_screen: false,
    };

    let frame = render_snapshot_to_mono_with_metrics(&snapshot, CellMetrics::compact());

    assert_eq!(frame.width(), 3 * COMPACT_CELL_WIDTH);
    assert_eq!(frame.height(), 2 * COMPACT_CELL_HEIGHT);
}

#[test]
fn renders_snapshot_into_larger_canvas() {
    let snapshot = RenderSnapshot {
        rows: 1,
        columns: 1,
        cells: vec![cell("A")],
        cursor_row: 0,
        cursor_column: 0,
        cursor_visible: false,
        alternate_screen: false,
    };

    let frame = render_snapshot_to_mono_canvas(&snapshot, CellMetrics::compact(), 10, 12);

    assert_eq!(frame.width(), 10);
    assert_eq!(frame.height(), 12);
    assert_eq!(frame.get_pixel(9, 11), 255);
}

#[test]
fn cursor_inverts_cell_background() {
    let snapshot = RenderSnapshot {
        rows: 1,
        columns: 1,
        cells: vec![cell(" ")],
        cursor_row: 0,
        cursor_column: 0,
        cursor_visible: true,
        alternate_screen: false,
    };

    let frame = render_snapshot_to_mono(&snapshot);

    assert_eq!(frame.get_pixel(0, 0), 0);
}

fn glyph_rows(ch: char) -> [u8; 8] {
    font8x8::BASIC_FONTS.get(ch).unwrap()
}

#[test]
fn glyph_is_drawn_from_the_basic_font_two_pixels_down() {
    let frame = render_snapshot_to_mono(&snapshot(1, 1, vec![cell("A")]));
    let glyph = glyph_rows('A');
    for y in 0..12u32 {
        for x in 0..8u32 {
            let on = (2..10).contains(&y) && glyph[(y - 2) as usize] & (1 << x) != 0;
            assert_eq!(frame.get_pixel(x, y), if on { 0 } else { 255 }, "({x}, {y})");
        }
    }
}

#[test]
fn compact_font_keeps_six_glyph_columns_one_pixel_down() {
    let frame = render_snapshot_to_mono_with_metrics(&snapshot(1, 1, vec![cell("M")]), CellMetrics::compact());
    let glyph = glyph_rows('M');
    for y in 0..10u32 {
        for x in 0..6u32 {
            let on = (1..9).contains(&y) && glyph[(y - 1) as usize] & (1 << x) != 0;
            assert_eq!(frame.get_pixel(x, y), if on { 0 } else { 255 }, "({x}, {y})");
        }
    }
}

#[test]
fn bold_thickens_and_underline_and_inverse_draw() {
    let mut bold = cell("I");
    bold.bold = true;
    let plain = render_snapshot_to_mono(&snapshot(1, 1, vec![cell("I")]));
    let thick = render_snapshot_to_mono(&snapshot(1, 1, vec![bold]));
    let black = |f: &MonoFrame| f.pixels().iter().filter(|p| **p == 0).count();
    assert!(black(&thick) > black(&plain));

    let mut under = cell(" ");
    under.underline = true;
    let frame = render_snapshot_to_mono(&snapshot(1, 1, vec![under]));
    for x in 0..8 {
        assert_eq!(frame.get_pixel(x, 10), 0);
        assert_eq!(frame.get_pixel(x, 9), 255);
    }

    let mut inverse = cell(" ");
    inverse.inverse = true;
    let frame = render_snapshot_to_mono(&snapshot(1, 1, vec![inverse.clone()]));
    assert!(frame.pixels().iter().all(|p| *p == 0));

    let mut with_cursor = snapshot(1, 1, vec![inverse]);
    with_cursor.cursor_visible = true;
    let frame = render_snapshot_to_mono(&with_cursor);
    assert!(frame.pixels().iter().all(|p| *p == 255));
}

#[test]
fn cells_outside_the_cursor_and_the_grid_stay_white() {
    let mut s = snapshot(2, 2, vec![cell(" "); 4]);
    s.cursor_visible = true;
    s.cursor_row = 1;
    s.cursor_column = 0;
    let frame = render_snapshot_to_mono_canvas(&s, CellMetrics::standard(), 20, 30);
    assert_eq!(frame.get_pixel(0, 12), 0);
    assert_eq!(frame.get_pixel(7, 23), 0);
    assert_eq!(frame.get_pixel(8, 12), 255);
    assert_eq!(frame.get_pixel(0, 0), 255);
    for y in 0..30 {
        for x in 16..20 {
            assert_eq!(frame.get_pixel(x, y), 255);
        }
    }
    for y in 24..30 {
        for x in 0..20 {
            assert_eq!(frame.get_pixel(x, y), 255);
        }
    }
}

#[test]
fn empty_text_draws_as_space_and_frames_fill() {
    let frame = render_snapshot_to_mono(&snapshot(1, 1, vec![cell("")]));
    assert!(frame.pixels().iter().all(|p| *p == 255));
    let filled = MonoFrame::from_pixel(3, 2, 7);
    assert_eq!(filled.pixels(), &[7u8; 6][..]);
    let mut f = MonoFrame::from_pixel(3, 2, 255);
    f.put_pixel(2, 1, 0);
    assert_eq!(f.get_pixel(2, 1), 0);
    assert_eq!(f.pixels()[5], 0);
}
