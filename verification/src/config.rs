//! The settings record that the monitor runs on.

use vstd::prelude::*;
use crate::table::Table;

verus! {

/// How the monitor serves and samples.
#[derive(Clone, Copy, Debug)]
pub struct Settings {
    /// The port of the HTTP surface.
    pub metrics_port: u16,
    /// Seconds between two ticks.
    pub probe_interval: u64,
    /// Bits of resolution asked of each sensor, 9 to 12.
    pub probe_resolution: u8,
}

/// Everything the monitor is configured with.
#[derive(Debug)]
pub struct Config {
    pub settings: Settings,
    /// Display names by hardware id.
    pub probe_labels: Table<String>,
    /// Calibration offsets by hardware id, in thousandths of a degree.
    pub calibration_offsets: Table<i32>,
}

} // verus!
