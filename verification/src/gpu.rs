//! Per-GPU health metrics, carried along with the NVLink and XGMI snapshots.

use vstd::prelude::*;

verus! {

/// Live values; each field is None when its read failed or is unsupported.
#[derive(Clone, Copy, Debug, PartialEq, Eq, Structural)]
pub struct GpuMetrics {
    pub util_pct: Option<u32>,
    pub vram_used_mb: Option<u64>,
    pub vram_total_mb: Option<u64>,
    pub temp_c: Option<i64>,
    pub power_mw: Option<u64>,
    pub clock_mhz: Option<u32>,
}

/// Metrics of which nothing could be read.
pub open spec fn no_metrics() -> GpuMetrics {
    GpuMetrics {
        util_pct: None,
        vram_used_mb: None,
        vram_total_mb: None,
        temp_c: None,
        power_mw: None,
        clock_mhz: None,
    }
}

impl Default for GpuMetrics {
    fn default() -> (r: Self)
        ensures
            r == no_metrics(),
    {
        GpuMetrics {
            util_pct: None,
            vram_used_mb: None,
            vram_total_mb: None,
            temp_c: None,
            power_mw: None,
            clock_mhz: None,
        }
    }
}

} // verus!
