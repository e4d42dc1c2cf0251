//! What the C interface hands out.

use rdmatop::capture::{CaptureResult, CaptureSample};
use rdmatop::ffi::{c_string, capture_interval_us, devices_from_csv, emit_samples, Handle};
use rdmatop::metrics::{Figure, Mean};
use rdmatop::trace::PortMetrics;

fn port(dev: &str, port: u32, tx: u64) -> PortMetrics {
    PortMetrics {
        dev_name: dev.to_string(),
        port,
        tx_bytes: Mean::of(tx, 1_000_000_000),
        rx_bytes: Mean::of(2, 1_000_000_000),
        tx_pkts: Mean::of(3, 1_000_000_000),
        rx_pkts: Mean::of(4, 1_000_000_000),
        rx_drops: Mean::of(5, 1_000_000_000),
    }
}

fn captured() -> CaptureResult {
    CaptureResult {
        samples: vec![
            CaptureSample { ts_unix_ns: 10, ports: vec![port("efa0", 1, 1)] },
            CaptureSample { ts_unix_ns: 20, ports: vec![port("efa0", 1, 9), port("efa1", 2, 8)] },
        ],
        error: None,
    }
}

fn per_sec(mean: &Mean) -> f64 {
    match mean {
        Mean::One(r) => r.delta as f64 / (r.elapsed_ns as f64 / 1e9),
        Mean::Of(parts) if parts.is_empty() => 0.0,
        Mean::Of(parts) => parts.iter().map(per_sec).sum::<f64>() / parts.len() as f64,
    }
}

fn value(figure: &Figure) -> f64 {
    let (mean, scale) = match figure {
        Figure::Gbps(m) => (m, 8.0 / 1e9),
        Figure::PerSec(m) => (m, 1.0),
    };
    per_sec(mean) * scale
}

#[test]
fn for_each_yields_five_named_metrics_per_port() {
    let mut handle = Handle::new();
    handle.stop(captured());
    let seen = handle.emissions();
    assert!(handle.error().is_none());
    assert!(!seen.is_empty());
    assert_eq!(seen.len() % 5, 0);
    let names: Vec<_> = seen[..5].iter().map(|s| s.metric.as_str()).collect();
    assert_eq!(
        names,
        ["tx_gbps", "rx_gbps", "tx_pps", "rx_pps", "rx_drops_per_sec"]
    );
    assert_eq!(seen[0].dev, "efa0");
    assert_eq!(seen[0].port, 1);
    assert!(seen[0].ts_ns > 0);
    assert!(value(&seen[0].value) > 0.0);
}

#[test]
fn for_each_after_stop_replays_the_same_samples() {
    let mut handle = Handle::new();
    assert!(handle.is_running());
    handle.stop(captured());
    assert!(!handle.is_running());
    let count = handle.emissions().len();
    // A later outcome is not taken: the capture has already stopped.
    handle.stop(CaptureResult { samples: Vec::new(), error: Some("late".to_string()) });
    assert_eq!(handle.emissions().len(), count);
    assert_eq!(count, 15);
    assert!(handle.error().is_none());
}

#[test]
fn devices_csv_is_split_and_trimmed() {
    assert_eq!(
        devices_from_csv(Some(" mlx5_0, mlx5_1 ,,")),
        Some(vec!["mlx5_0".to_string(), "mlx5_1".to_string()])
    );
    assert_eq!(devices_from_csv(Some(" , ")), None);
    assert_eq!(devices_from_csv(None), None);
}

#[test]
fn emissions_follow_samples_and_ports() {
    let seen = emit_samples(&captured());
    let heads: Vec<_> = seen
        .iter()
        .step_by(5)
        .map(|s| (s.ts_ns, s.dev.as_str(), s.port))
        .collect();
    assert_eq!(heads, vec![(10, "efa0", 1), (20, "efa0", 1), (20, "efa1", 2)]);
    assert!((value(&seen[0].value) - 8e-9).abs() < 1e-18);
    assert_eq!(value(&seen[2].value), 3.0);
    assert_eq!(value(&seen[3].value), 4.0);
    assert_eq!(value(&seen[4].value), 5.0);
}

#[test]
fn a_device_name_with_a_terminator_is_not_emitted() {
    let mut result = captured();
    result.samples[1].ports[0].dev_name = "ef\0a".to_string();
    let seen = emit_samples(&result);
    assert!(seen.iter().all(|s| !s.dev.contains('\0')));
}

#[test]
fn the_interval_has_a_floor() {
    assert_eq!(capture_interval_us(0), 100);
    assert_eq!(capture_interval_us(100), 100);
    assert_eq!(capture_interval_us(101), 101);
}

#[test]
fn terminators_are_taken_out_of_messages() {
    assert_eq!(c_string("plain"), "plain");
    assert!(!c_string("a\0b").contains('\0'));
}

#[test]
fn an_error_of_the_capture_is_kept() {
    let mut handle = Handle::new();
    handle.stop(CaptureResult { samples: Vec::new(), error: Some("gone".to_string()) });
    assert_eq!(handle.error().as_deref(), Some("gone"));
    assert!(handle.emissions().is_empty());
    let mut panicked = Handle::new();
    panicked.note_panic();
    assert!(panicked.error().is_some());
}
