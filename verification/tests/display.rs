use termpaper::display::{DisplayCapabilities, WaveshareDisplay, WaveshareRenderError};
use termpaper::panel::PanelModel;
use termpaper::refresh::{RenderCell, RenderSnapshot, TerminalColor};
use termpaper::render::{render_snapshot_to_mono_canvas, CellMetrics};
use termpaper::waveshare3ing::{pack_landscape_mono_frame, PACKED_BUFFER_LEN};

fn blank_snapshot(rows: u16, columns: u16) -> RenderSnapshot {
    RenderSnapshot {
        rows,
        columns,
        cells: vec![
            RenderCell {
                text: "x".into(),
                bold: false,
                underline: false,
                inverse: false,
                foreground: TerminalColor::Default,
                background: TerminalColor::Default,
            };
            rows as usize * columns as usize
        ],
        cursor_row: 0,
        cursor_column: 0,
        cursor_visible: true,
        alternate_screen: false,
    }
}

#[test]
fn capabilities_of_fast_and_slow_displays() {
    let fast = DisplayCapabilities::interactive();
    assert!(fast.partial_refresh && fast.high_priority_bypasses_rate_limit);
    assert_eq!(fast.min_refresh_interval.nanos, 250_000_000);
    assert_eq!(fast.full_refresh_latency.nanos, 0);
    let panel = WaveshareDisplay::new(PanelModel::Waveshare3InG, CellMetrics::compact()).capabilities();
    assert!(!panel.partial_refresh && !panel.high_priority_bypasses_rate_limit);
    assert_eq!(panel.min_refresh_interval.nanos, 12_000_000_000);
    assert_eq!(panel.full_refresh_latency.nanos, 12_000_000_000);
}

#[test]
fn waveshare_frame_needs_the_panel_grid() {
    let display = WaveshareDisplay::new(PanelModel::Waveshare3InG, CellMetrics::compact());
    assert_eq!(
        display.packed_frame(&blank_snapshot(24, 80)),
        Err(WaveshareRenderError::GridMismatch {
            expected_columns: 66,
            expected_rows: 16,
            columns: 80,
            rows: 24
        })
    );
    let snapshot = blank_snapshot(16, 66);
    let packed = display.packed_frame(&snapshot).unwrap();
    assert_eq!(packed.len(), PACKED_BUFFER_LEN);
    let canvas = render_snapshot_to_mono_canvas(&snapshot, CellMetrics::compact(), 400, 168);
    assert_eq!(packed, pack_landscape_mono_frame(&canvas).unwrap());
    let standard = WaveshareDisplay::new(PanelModel::Waveshare3InG, CellMetrics::standard());
    assert!(standard.packed_frame(&blank_snapshot(14, 50)).is_ok());
}
