use termpaper::config::{Cli, DisplayMode, RuntimeConfig, TerminalFont};
use termpaper::panel::PanelModel;
use termpaper::render::{CELL_HEIGHT, CELL_WIDTH, COMPACT_CELL_HEIGHT, COMPACT_CELL_WIDTH};

fn cli(display: DisplayMode, font: Option<TerminalFont>) -> Cli {
    Cli {
        display,
        columns: None,
        rows: None,
        panel: PanelModel::Waveshare3InG,
        font,
        frame_dir: "frames".into(),
        command: None,
        hardware_test: None,
    }
}

#[test]
fn waveshare_defaults_to_compact_native_grid() {
    let config = RuntimeConfig::from(Cli {
        display: DisplayMode::Waveshare,
        columns: None,
        rows: None,
        panel: PanelModel::Waveshare3InG,
        font: None,
        frame_dir: "frames".into(),
        command: None,
        hardware_test: None,
    });

    assert_eq!(config.font, TerminalFont::Compact);
    assert_eq!(config.columns, (400 / COMPACT_CELL_WIDTH) as u16);
    assert_eq!(config.rows, (168 / COMPACT_CELL_HEIGHT) as u16);
}

#[test]
fn standard_font_keeps_original_waveshare_grid() {
    let config = RuntimeConfig::from(Cli {
        display: DisplayMode::Waveshare,
        columns: None,
        rows: None,
        panel: PanelModel::Waveshare3InG,
        font: Some(TerminalFont::Standard),
        frame_dir: "frames".into(),
        command: None,
        hardware_test: None,
    });

    assert_eq!(config.columns, (400 / CELL_WIDTH) as u16);
    assert_eq!(config.rows, (168 / CELL_HEIGHT) as u16);
}

#[test]
fn waveshare_grids_are_66_by_16_and_50_by_14() {
    let compact = RuntimeConfig::from(cli(DisplayMode::Waveshare, None));
    assert_eq!((compact.columns, compact.rows), (66, 16));
    let standard = RuntimeConfig::from(cli(DisplayMode::Waveshare, Some(TerminalFont::Standard)));
    assert_eq!((standard.columns, standard.rows), (50, 14));
}

#[test]
fn mock_and_debug_default_to_80_by_24_standard() {
    for display in [DisplayMode::Mock, DisplayMode::Debug] {
        let config = RuntimeConfig::from(cli(display, None));
        assert_eq!(config.font, TerminalFont::Standard);
        assert_eq!((config.columns, config.rows), (80, 24));
    }
}

#[test]
fn explicit_grid_and_options_pass_through() {
    let config = RuntimeConfig::from(Cli {
        display: DisplayMode::Waveshare,
        columns: Some(40),
        rows: Some(10),
        panel: PanelModel::Waveshare3InG,
        font: Some(TerminalFont::Compact),
        frame_dir: "out".into(),
        command: Some("ls -la".into()),
        hardware_test: None,
    });
    assert_eq!((config.columns, config.rows), (40, 10));
    assert_eq!(config.frame_dir, "out");
    assert_eq!(config.command.as_deref(), Some("ls -la"));
    assert_eq!(config.display, DisplayMode::Waveshare);
}

#[test]
fn font_metrics_are_8x12_and_6x10() {
    let standard = TerminalFont::Standard.metrics();
    assert_eq!((standard.width, standard.height, standard.glyph_width, standard.y_offset), (8, 12, 8, 2));
    let compact = TerminalFont::Compact.metrics();
    assert_eq!((compact.width, compact.height, compact.glyph_width, compact.y_offset), (6, 10, 6, 1));
}
