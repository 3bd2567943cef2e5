//! Command-line options and the runtime configuration derived from them.

use vstd::prelude::*;

use crate::hardware_test::HardwareTestPattern;
use crate::panel::PanelModel;
use crate::render::{CellMetrics, COMPACT_CELL_HEIGHT, COMPACT_CELL_WIDTH, CELL_HEIGHT, CELL_WIDTH};

verus! {

/// The options given on the command line.
#[derive(Debug, Clone)]
pub struct Cli {
    pub display: DisplayMode,
    pub columns: Option<u16>,
    pub rows: Option<u16>,
    pub panel: PanelModel,
    pub font: Option<TerminalFont>,
    pub frame_dir: String,
    pub command: Option<String>,
    pub hardware_test: Option<HardwareTestPattern>,
}

/// Where frames go.
#[derive(Debug, Clone, Copy, PartialEq, Eq, Structural)]
pub enum DisplayMode {
    Mock,
    Debug,
    Waveshare,
}

/// The cell font.
#[derive(Debug, Clone, Copy, PartialEq, Eq, Structural)]
pub enum TerminalFont {
    Standard,
    Compact,
}

/// The metrics of a font.
pub open spec fn font_metrics(font: TerminalFont) -> CellMetrics {
    match font {
        TerminalFont::Standard => CellMetrics {
            width: CELL_WIDTH,
            height: CELL_HEIGHT,
            glyph_width: 8,
            glyph_height: 8,
            y_offset: 2,
        },
        TerminalFont::Compact => CellMetrics {
            width: COMPACT_CELL_WIDTH,
            height: COMPACT_CELL_HEIGHT,
            glyph_width: 6,
            glyph_height: 8,
            y_offset: 1,
        },
    }
}

impl TerminalFont {
    /// The standard font is 8 x 12, the compact one 6 x 10.
    pub fn metrics(self) -> (r: CellMetrics)
        ensures
            r == font_metrics(self),
    {
        match self {
            TerminalFont::Standard => CellMetrics::standard(),
            TerminalFont::Compact => CellMetrics::compact(),
        }
    }
}

/// The settings the terminal runs with.
#[derive(Debug, Clone)]
pub struct RuntimeConfig {
    pub display: DisplayMode,
    pub columns: u16,
    pub rows: u16,
    pub panel: PanelModel,
    pub font: TerminalFont,
    pub frame_dir: String,
    pub command: Option<String>,
    pub hardware_test: Option<HardwareTestPattern>,
}

/// The font used when none is asked for: compact on the Waveshare panel,
/// standard elsewhere.
pub open spec fn default_font(display: DisplayMode) -> TerminalFont {
    match display {
        DisplayMode::Waveshare => TerminalFont::Compact,
        _ => TerminalFont::Standard,
    }
}

/// The configuration the options give: the chosen or default font; the
/// chosen grid size or, by default, on the Waveshare panel as many cells of
/// that font as fit on the panel (400 x 168 pixels), elsewhere 80 x 24.
pub open spec fn runtime_config_spec(cli: Cli) -> RuntimeConfig {
    let font = match cli.font {
        Some(f) => f,
        None => default_font(cli.display),
    };
    let metrics = font_metrics(font);
    let default_columns: u16 = match cli.display {
        DisplayMode::Waveshare => (400u32 / metrics.width) as u16,
        _ => 80,
    };
    let default_rows: u16 = match cli.display {
        DisplayMode::Waveshare => (168u32 / metrics.height) as u16,
        _ => 24,
    };
    RuntimeConfig {
        display: cli.display,
        columns: match cli.columns {
            Some(c) => c,
            None => default_columns,
        },
        rows: match cli.rows {
            Some(r) => r,
            None => default_rows,
        },
        panel: cli.panel,
        font,
        frame_dir: cli.frame_dir,
        command: cli.command,
        hardware_test: cli.hardware_test,
    }
}

impl vstd::std_specs::convert::FromSpecImpl<Cli> for RuntimeConfig {
    open spec fn obeys_from_spec() -> bool {
        true
    }

    open spec fn from_spec(v: Cli) -> RuntimeConfig {
        runtime_config_spec(v)
    }
}

impl From<Cli> for RuntimeConfig {
    fn from(cli: Cli) -> (r: Self) {
        let profile = cli.panel.profile();
        let font = match cli.font {
            Some(f) => f,
            None => match cli.display {
                DisplayMode::Waveshare => TerminalFont::Compact,
                DisplayMode::Mock | DisplayMode::Debug => TerminalFont::Standard,
            },
        };
        let metrics = font.metrics();
        let default_columns = match cli.display {
            DisplayMode::Waveshare => profile.terminal_columns(metrics.width as u16),
            DisplayMode::Mock | DisplayMode::Debug => 80,
        };
        let default_rows = match cli.display {
            DisplayMode::Waveshare => profile.terminal_rows(metrics.height as u16),
            DisplayMode::Mock | DisplayMode::Debug => 24,
        };
        RuntimeConfig {
            display: cli.display,
            columns: match cli.columns {
                Some(c) => c,
                None => default_columns,
            },
            rows: match cli.rows {
                Some(r) => r,
                None => default_rows,
            },
            panel: cli.panel,
            font,
            frame_dir: cli.frame_dir,
            command: cli.command,
            hardware_test: cli.hardware_test,
        }
    }
}

/// The default Waveshare grid: 66 x 16 with the compact font, 50 x 14 with
/// the standard one.
pub proof fn lemma_waveshare_default_grid(cli: Cli)
    requires
        cli.display == DisplayMode::Waveshare,
        cli.columns is None,
        cli.rows is None,
    ensures
        cli.font is None ==> runtime_config_spec(cli).font == TerminalFont::Compact
            && runtime_config_spec(cli).columns == 66 && runtime_config_spec(cli).rows == 16,
        cli.font == Some(TerminalFont::Standard) ==> runtime_config_spec(cli).columns == 50
            && runtime_config_spec(cli).rows == 14,
{
}

} // verus!
