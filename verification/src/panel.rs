//! The e-paper panels the terminal can drive, and their geometry.

use vstd::prelude::*;

verus! {

/// A supported panel model.
#[derive(Debug, Clone, Copy, PartialEq, Eq, Structural)]
pub enum PanelModel {
    Waveshare3InG,
}

/// The color set a panel can show.
#[derive(Debug, Clone, Copy, PartialEq, Eq, Structural)]
pub enum PanelColors {
    BlackWhiteRedYellow,
}

/// What the terminal needs to know of a panel.
#[derive(Debug, Clone, Copy, PartialEq, Eq)]
pub struct PanelProfile {
    pub model: PanelModel,
    pub name: &'static str,
    pub width_px: u16,
    pub height_px: u16,
    pub colors: PanelColors,
    pub full_refresh_seconds: u16,
    pub partial_refresh: bool,
    pub interface: &'static str,
}

impl PanelModel {
    /// The profile of the panel: the Waveshare 3inch e-Paper (G) is
    /// 400 x 168 pixels over SPI, four colors, 12 s full refresh and no
    /// partial refresh.
    pub fn profile(self) -> (r: PanelProfile)
        ensures
            r.model == self,
            r.width_px == 400,
            r.height_px == 168,
            r.colors == PanelColors::BlackWhiteRedYellow,
            r.full_refresh_seconds == 12,
            !r.partial_refresh,
            r.name@ == "Waveshare 3inch e-Paper (G)"@,
            r.interface@ == "SPI"@,
    {
        match self {
            PanelModel::Waveshare3InG => PanelProfile {
                model: self,
                name: "Waveshare 3inch e-Paper (G)",
                width_px: 400,
                height_px: 168,
                colors: PanelColors::BlackWhiteRedYellow,
                full_refresh_seconds: 12,
                partial_refresh: false,
                interface: "SPI",
            },
        }
    }
}

impl PanelProfile {
    /// How many cells of `cell_width` pixels fit across the panel.
    pub fn terminal_columns(self, cell_width: u16) -> (r: u16)
        requires
            cell_width > 0,
        ensures
            r == self.width_px / cell_width,
    {
        self.width_px / cell_width
    }

    /// How many cells of `cell_height` pixels fit down the panel.
    pub fn terminal_rows(self, cell_height: u16) -> (r: u16)
        requires
            cell_height > 0,
        ensures
            r == self.height_px / cell_height,
    {
        self.height_px / cell_height
    }
}

} // verus!
