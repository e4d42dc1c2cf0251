//! Background captures, driven by a reader whose clock is simulated.

use rdmatop::capture::{
    keep_devices, next_due, panicked, CaptureResult, CaptureStep, SamplingLoop, StartError,
    MAX_CONSECUTIVE_READ_FAILURES, MAX_SAMPLES,
};
use rdmatop::metrics::Mean;
use rdmatop::stat::{HwCounter, PortStat};

const MS: u64 = 1_000_000;

fn port_stat(dev: &str, port: u32, counters: &[(&str, u64)]) -> PortStat {
    PortStat {
        dev_name: dev.to_string(),
        port,
        link_mbps: None,
        state: None,
        counters: counters
            .iter()
            .map(|(name, value)| HwCounter { name: name.to_string(), value: *value })
            .collect(),
    }
}

fn growing(devices: &[&str], n: u64) -> Vec<PortStat> {
    devices
        .iter()
        .map(|dev| port_stat(dev, 1, &[("tx_bytes", n * 1_000_000), ("rx_pkts", n * 10)]))
        .collect()
}

fn per_sec(mean: &Mean) -> f64 {
    match mean {
        Mean::One(r) => r.delta as f64 / (r.elapsed_ns as f64 / 1e9),
        Mean::Of(parts) if parts.is_empty() => 0.0,
        Mean::Of(parts) => parts.iter().map(per_sec).sum::<f64>() / parts.len() as f64,
    }
}

/// The count of a mean that is a single rate.
fn delta(mean: &Mean) -> u64 {
    match mean {
        Mean::One(r) => r.delta,
        Mean::Of(_) => panic!("not a single rate"),
    }
}

/// Runs a capture for some milliseconds of simulated time; the unix clock runs
/// `base` ahead of the monotonic one. Returns the result and the reads made.
fn run(
    millis: u64,
    interval_ms: u64,
    devices: Option<Vec<String>>,
    base: u64,
    read: impl Fn(u64) -> Result<Vec<PortStat>, String>,
) -> Result<(CaptureResult, u64), StartError> {
    let mut now = 0;
    let mut reads = 1;
    let mut sampling = SamplingLoop::from_baseline(
        read(1).unwrap(),
        interval_ms * MS,
        devices,
        now,
        base + now,
    )?;
    loop {
        match sampling.step(now >= millis * MS, now) {
            CaptureStep::Stop => return Ok((sampling.finish(None), reads)),
            CaptureStep::Sleep { ns } => now += ns,
            CaptureStep::Read => {
                reads += 1;
                now += MS / 10;
                if let Some(error) = sampling.read_once(read(reads), now, base + now) {
                    return Ok((sampling.finish(Some(error)), reads));
                }
            }
        }
    }
}

fn capture_for(millis: u64, devices: Option<Vec<String>>) -> CaptureResult {
    run(millis, 5, devices, 7_000, |n| Ok(growing(&["mlx5_0", "mlx5_1"], n)))
        .unwrap()
        .0
}

#[test]
fn sample_timestamps_are_monotonic_and_within_the_run() {
    let before = 7_000;
    let result = capture_for(60, None);
    let after = 7_000 + 61 * MS;
    assert!(result.error.is_none());
    assert!(result.samples.len() >= 3, "got {}", result.samples.len());
    let stamps: Vec<_> = result.samples.iter().map(|s| s.ts_unix_ns).collect();
    assert!(stamps.is_sorted());
    assert!(stamps[0] >= before);
    assert!(*stamps.last().unwrap() <= after);
}

#[test]
fn each_sample_carries_rates_for_every_port() {
    let result = capture_for(60, None);
    for sample in &result.samples {
        assert_eq!(sample.ports.len(), 2);
        assert_eq!(sample.ports[0].dev_name, "mlx5_0");
        let tx = per_sec(&sample.ports[0].tx_bytes);
        assert!(tx > 0.0 && tx.is_finite());
        assert!(per_sec(&sample.ports[1].rx_pkts) > 0.0);
    }
}

#[test]
fn device_filter_keeps_only_named_devices() {
    let result = capture_for(30, Some(vec!["mlx5_1".into()]));
    assert!(!result.samples.is_empty());
    for sample in &result.samples {
        assert_eq!(sample.ports.len(), 1);
        assert_eq!(sample.ports[0].dev_name, "mlx5_1");
    }
}

#[test]
fn filter_matching_nothing_fails_at_start() {
    let err = run(5, 5, Some(vec!["nope".into()]), 0, |n| Ok(growing(&["mlx5_0"], n)))
        .err()
        .expect("start must fail");
    assert!(matches!(err, StartError::NoMatchingPort));
    assert!(!err.message().is_empty());
}

#[test]
fn transient_read_failure_is_skipped_and_the_gap_is_bridged() {
    let (result, reads) = run(20, 2, None, 0, |n| {
        if n == 3 {
            Err("netlink gone".to_string())
        } else {
            Ok(vec![port_stat("efa0", 1, &[("tx_bytes", n * 1000)])])
        }
    })
    .unwrap();
    assert!(reads >= 5);
    assert!(result.error.is_none());
    assert_eq!(result.samples.len(), reads as usize - 2);
    for sample in &result.samples {
        assert!(per_sec(&sample.ports[0].tx_bytes) > 0.0);
    }
    // The sample after the failure covers both intervals.
    assert_eq!(delta(&result.samples[0].ports[0].tx_bytes), 1000);
    assert_eq!(delta(&result.samples[1].ports[0].tx_bytes), 2000);
    assert_eq!(delta(&result.samples[2].ports[0].tx_bytes), 1000);
}

#[test]
fn persistent_read_failure_stops_capture_and_keeps_earlier_samples() {
    let (result, reads) = run(10_000, 2, None, 0, |n| {
        if n > 3 {
            Err("netlink gone".to_string())
        } else {
            Ok(vec![port_stat("efa0", 1, &[("tx_bytes", n * 1000)])])
        }
    })
    .unwrap();
    assert_eq!(reads, 3 + u64::from(MAX_CONSECUTIVE_READ_FAILURES));
    assert_eq!(result.samples.len(), 2);
    assert_eq!(result.error.as_deref(), Some("netlink gone"));
}

#[test]
fn next_due_skips_missed_deadlines_instead_of_bursting() {
    let interval = 10 * MS;
    let now = 5_000 * MS;
    let stale = now - 1_000 * MS;
    let due = next_due(stale, interval, now);
    assert!(due >= now && due <= now);
    let fresh = now + 1_000 * MS;
    assert_eq!(next_due(fresh, interval, now), fresh + interval);
}

#[test]
fn sleeping_is_sliced_and_stopping_comes_first() {
    let sampling =
        SamplingLoop::from_baseline(growing(&["a"], 1), 50 * MS, None, 0, 0).unwrap();
    assert!(matches!(sampling.step(false, 0), CaptureStep::Sleep { ns } if ns == 20 * MS));
    assert!(matches!(sampling.step(false, 45 * MS), CaptureStep::Sleep { ns } if ns == 5 * MS));
    assert!(matches!(sampling.step(false, 50 * MS), CaptureStep::Read));
    assert!(matches!(sampling.step(true, 50 * MS), CaptureStep::Stop));
}

#[test]
fn a_failure_in_a_row_is_forgiven_by_a_success() {
    let fail = |sampling: &mut SamplingLoop| {
        sampling.read_once(Err("gone".to_string()), 0, 0)
    };
    let mut sampling =
        SamplingLoop::from_baseline(growing(&["a"], 1), MS, None, 0, 0).unwrap();
    for _ in 1..MAX_CONSECUTIVE_READ_FAILURES {
        assert!(fail(&mut sampling).is_none());
    }
    assert!(sampling.read_once(Ok(growing(&["a"], 2)), MS, MS).is_none());
    for _ in 1..MAX_CONSECUTIVE_READ_FAILURES {
        assert!(fail(&mut sampling).is_none());
    }
    assert_eq!(fail(&mut sampling).as_deref(), Some("gone"));
    assert_eq!(sampling.finish(None).samples.len(), 1);
}

#[test]
fn keeping_devices_without_a_filter_keeps_all() {
    let all = growing(&["a", "b", "a"], 1);
    assert_eq!(keep_devices(all.clone(), &None).len(), 3);
    let kept = keep_devices(all.clone(), &Some(vec!["a".to_string()]));
    assert_eq!(kept.len(), 2);
    assert!(keep_devices(all, &Some(Vec::new())).is_empty());
}

#[test]
fn a_panicked_capture_has_no_samples() {
    let result = panicked();
    assert!(result.samples.is_empty());
    assert!(result.error.is_some());
}

#[test]
fn a_full_capture_stops() {
    let mut sampling =
        SamplingLoop::from_baseline(growing(&["a"], 1), MS, None, 0, 0).unwrap();
    let mut now = 0;
    let mut reads = 1;
    let mut error = None;
    while error.is_none() && reads <= MAX_SAMPLES as u64 + 10 {
        now += MS;
        reads += 1;
        error = sampling.read_once(Ok(growing(&["a"], reads)), now, now);
    }
    assert!(error.is_some());
    let result = sampling.finish(error);
    assert_eq!(result.samples.len(), MAX_SAMPLES);
    assert!(result.error.is_some());
}
