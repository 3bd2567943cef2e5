//! Verified core of an e-paper-native interactive terminal environment:
//! key encoding, screen diffing and refresh scheduling, monochrome
//! rendering, panel geometry and the Waveshare 3inch (G) frame packing.

pub mod clock;
pub mod config;
pub mod display;
pub mod input;
pub mod panel;
pub mod pty;
pub mod refresh;
pub mod render;
pub mod terminal;
pub mod waveshare3ing;
