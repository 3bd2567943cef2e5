//! What a display can do, and the frame the Waveshare panel is sent.

use vstd::prelude::*;

use crate::clock::Duration;
use crate::panel::PanelModel;
use crate::refresh::RenderSnapshot;
use crate::render::{render_fits, render_snapshot_to_mono_canvas, rendered_pixel, CellMetrics};
use crate::waveshare3ing::{mono_frame_packed, pack_landscape_mono_frame};

verus! {

/// How a display refreshes.
#[derive(Debug, Clone, Copy, PartialEq, Eq, Structural)]
pub struct DisplayCapabilities {
    pub partial_refresh: bool,
    pub full_refresh_latency: Duration,
    pub min_refresh_interval: Duration,
    pub high_priority_bypasses_rate_limit: bool,
}

impl DisplayCapabilities {
    /// A fast display: partial refresh, no latency, at most four refreshes
    /// a second, high-priority changes at once.
    pub fn interactive() -> (r: Self)
        ensures
            r.partial_refresh,
            r.full_refresh_latency.nanos == 0,
            r.min_refresh_interval.nanos == 250_000_000,
            r.high_priority_bypasses_rate_limit,
    {
        DisplayCapabilities {
            partial_refresh: true,
            full_refresh_latency: Duration::from_millis(0),
            min_refresh_interval: Duration::from_millis(250),
            high_priority_bypasses_rate_limit: true,
        }
    }

    /// A slow display that only refreshes whole, with the given latency and
    /// interval, and that no change may rush.
    pub fn full_refresh_only(full_refresh_latency: Duration, min_refresh_interval: Duration) -> (r: Self)
        ensures
            !r.partial_refresh,
            r.full_refresh_latency == full_refresh_latency,
            r.min_refresh_interval == min_refresh_interval,
            !r.high_priority_bypasses_rate_limit,
    {
        DisplayCapabilities {
            partial_refresh: false,
            full_refresh_latency,
            min_refresh_interval,
            high_priority_bypasses_rate_limit: false,
        }
    }
}

/// The Waveshare panel as a display: the panel model and the cell font.
#[derive(Debug, Clone, Copy)]
pub struct WaveshareDisplay {
    pub panel: PanelModel,
    pub metrics: CellMetrics,
}

/// Why a snapshot cannot be drawn on the Waveshare panel.
#[derive(Debug, Clone, Copy, PartialEq, Eq, Structural)]
pub enum WaveshareRenderError {
    /// The terminal grid is not the one the panel holds with the font.
    GridMismatch { expected_columns: u16, expected_rows: u16, columns: u16, rows: u16 },
}

/// The grid the panel holds with the given metrics: whole cells of the
/// metrics' size (taken as `u16`) on 400 x 168 pixels.
pub open spec fn panel_grid(metrics: CellMetrics) -> (u16, u16) {
    ((400u16 / (metrics.width as u16)) as u16, (168u16 / (metrics.height as u16)) as u16)
}

/// The 400 x 168 canvas of a snapshot, row-major.
pub open spec fn panel_canvas(snapshot: RenderSnapshot, metrics: CellMetrics) -> Seq<u8> {
    Seq::new(
        67200,
        |i: int| rendered_pixel(snapshot, metrics, snapshot.rows * snapshot.columns, i % 400, i / 400),
    )
}

impl WaveshareDisplay {
    /// A display for the panel with the given font metrics.
    pub fn new(panel: PanelModel, metrics: CellMetrics) -> (r: Self)
        ensures
            r.panel == panel,
            r.metrics == metrics,
    {
        WaveshareDisplay { panel, metrics }
    }

    /// Full refresh only, 12 s latency and at most one refresh per 12 s.
    pub fn capabilities(&self) -> (r: DisplayCapabilities)
        ensures
            !r.partial_refresh,
            r.full_refresh_latency.nanos == 12_000_000_000,
            r.min_refresh_interval.nanos == 12_000_000_000,
            !r.high_priority_bypasses_rate_limit,
    {
        DisplayCapabilities::full_refresh_only(Duration::from_secs(12), Duration::from_secs(12))
    }

    /// The packed panel buffer of a snapshot: its grid must be the one the
    /// panel holds with the font; it is then rendered on a 400 x 168 canvas
    /// and packed for the controller.
    pub fn packed_frame(&self, snapshot: &RenderSnapshot) -> (r: Result<Vec<u8>, WaveshareRenderError>)
        requires
            self.metrics.width as u16 > 0,
            self.metrics.height as u16 > 0,
            snapshot.columns == panel_grid(self.metrics).0 && snapshot.rows == panel_grid(
                self.metrics,
            ).1 ==> snapshot.has_grid() && render_fits(
                snapshot.rows as int,
                snapshot.columns as int,
                self.metrics,
            ),
        ensures
            match r {
                Ok(packed) => snapshot.columns == panel_grid(self.metrics).0 && snapshot.rows
                    == panel_grid(self.metrics).1 && packed@ == mono_frame_packed(
                    panel_canvas(*snapshot, self.metrics),
                ),
                Err(e) => !(snapshot.columns == panel_grid(self.metrics).0 && snapshot.rows
                    == panel_grid(self.metrics).1) && e == (WaveshareRenderError::GridMismatch {
                    expected_columns: panel_grid(self.metrics).0,
                    expected_rows: panel_grid(self.metrics).1,
                    columns: snapshot.columns,
                    rows: snapshot.rows,
                }),
            },
    {
        let profile = self.panel.profile();
        let metrics = self.metrics;
        let expected_columns = profile.terminal_columns(metrics.width as u16);
        let expected_rows = profile.terminal_rows(metrics.height as u16);
        if snapshot.columns != expected_columns || snapshot.rows != expected_rows {
            return Err(
                WaveshareRenderError::GridMismatch {
                    expected_columns,
                    expected_rows,
                    columns: snapshot.columns,
                    rows: snapshot.rows,
                },
            );
        }
        let frame = render_snapshot_to_mono_canvas(
            snapshot,
            metrics,
            profile.width_px as u32,
            profile.height_px as u32,
        );
        proof {
            assert forall|i: int| 0 <= i < 67200 implies #[trigger] frame@.pixels[i] == panel_canvas(
                *snapshot,
                metrics,
            )[i] by {
                assert(frame@.at(i % 400, i / 400) == rendered_pixel(
                    *snapshot,
                    metrics,
                    snapshot.rows * snapshot.columns,
                    i % 400,
                    i / 400,
                ));
            }
            assert(frame@.pixels =~= panel_canvas(*snapshot, metrics));
        }
        match pack_landscape_mono_frame(&frame) {
            Ok(packed) => Ok(packed),
            Err(_) => Err(
                WaveshareRenderError::GridMismatch {
                    expected_columns,
                    expected_rows,
                    columns: snapshot.columns,
                    rows: snapshot.rows,
                },
            ),
        }
    }
}

} // verus!
