//! Rates between two readings.

use rdmatop::metrics::{
    counter_delta, is_bytes_counter, is_sum_above_zero, rates_between, Mean, Rate, SECOND_NS,
};
use rdmatop::stat::{HwCounter, PortStat};

fn port_stat(dev: &str, port: u32, counters: &[(&str, u64)]) -> PortStat {
    PortStat {
        dev_name: dev.to_string(),
        port,
        link_mbps: None,
        state: None,
        counters: counters
            .iter()
            .map(|(name, value)| HwCounter { name: name.to_string(), value: *value })
            .collect(),
    }
}

fn per_sec(mean: &Mean) -> f64 {
    match mean {
        Mean::One(r) => r.delta as f64 / (r.elapsed_ns as f64 / 1e9),
        Mean::Of(parts) if parts.is_empty() => 0.0,
        Mean::Of(parts) => parts.iter().map(per_sec).sum::<f64>() / parts.len() as f64,
    }
}

/// The count of a mean that is a single rate.
fn delta(mean: &Mean) -> u64 {
    match mean {
        Mean::One(r) => r.delta,
        Mean::Of(_) => panic!("not a single rate"),
    }
}

fn gbps(mean: &Mean) -> f64 {
    per_sec(mean) * 8.0 / 1_000_000_000.0
}

#[test]
fn rates_between_derives_five_metrics_per_port() {
    let prev = vec![port_stat(
        "mlx5_0",
        1,
        &[
            ("tx_bytes", 1_000),
            ("rx_bytes", 0),
            ("tx_pkts", 10),
            ("rx_pkts", 0),
            ("rx_drops", 0),
        ],
    )];
    let curr = vec![port_stat(
        "mlx5_0",
        1,
        &[
            ("tx_bytes", 1_000 + 250_000_000),
            ("rx_bytes", 125_000_000),
            ("tx_pkts", 110),
            ("rx_pkts", 50),
            ("rx_drops", 2),
        ],
    )];
    let out = rates_between(&prev, &curr, 2 * SECOND_NS);
    assert_eq!(out.len(), 1);
    let metrics = &out[0];
    assert_eq!(metrics.dev_name, "mlx5_0");
    assert_eq!(metrics.port, 1);
    assert!((gbps(&metrics.tx_bytes) - 1.0).abs() < 1e-9);
    assert!((gbps(&metrics.rx_bytes) - 0.5).abs() < 1e-9);
    assert!((per_sec(&metrics.tx_pkts) - 50.0).abs() < 1e-9);
    assert!((per_sec(&metrics.rx_pkts) - 25.0).abs() < 1e-9);
    assert!((per_sec(&metrics.rx_drops) - 1.0).abs() < 1e-9);
}

#[test]
fn port_without_baseline_is_skipped() {
    let prev = vec![port_stat("efa0", 1, &[("tx_bytes", 0)])];
    let curr = vec![
        port_stat("efa0", 1, &[("tx_bytes", 1_000_000_000)]),
        port_stat("efa1", 1, &[("tx_bytes", 8_000_000_000_000)]),
    ];
    let out = rates_between(&prev, &curr, SECOND_NS);
    assert_eq!(out.len(), 1);
    assert_eq!(out[0].dev_name, "efa0");
    assert!((gbps(&out[0].tx_bytes) - 8.0).abs() < 1e-9);
}

#[test]
fn missing_counter_reads_as_zero_rate() {
    let prev = vec![port_stat("efa0", 1, &[("tx_bytes", 0)])];
    let curr = vec![port_stat("efa0", 1, &[("tx_bytes", 1_000)])];
    let out = rates_between(&prev, &curr, SECOND_NS);
    assert_eq!(gbps(&out[0].rx_bytes), 0.0);
    assert_eq!(per_sec(&out[0].rx_drops), 0.0);
}

#[test]
fn counter_wrap_does_not_go_negative() {
    let prev = vec![port_stat("efa0", 1, &[("tx_bytes", 100)])];
    let curr = vec![port_stat("efa0", 1, &[("tx_bytes", 50)])];
    let out = rates_between(&prev, &curr, SECOND_NS);
    assert_eq!(gbps(&out[0].tx_bytes), 0.0);
}

#[test]
fn rates_keep_count_and_span_exactly() {
    let prev = vec![port_stat("efa0", 1, &[("tx_bytes", 7)])];
    let curr = vec![port_stat("efa0", 1, &[("tx_bytes", 10)])];
    let out = rates_between(&prev, &curr, 1_500_000_001);
    assert!(matches!(out[0].tx_bytes, Mean::One(Rate { delta: 3, elapsed_ns: 1_500_000_001 })));
}

#[test]
fn ports_of_one_device_are_told_apart() {
    let prev = vec![
        port_stat("mlx5_0", 1, &[("tx_pkts", 1)]),
        port_stat("mlx5_0", 2, &[("tx_pkts", 100)]),
    ];
    let curr = vec![
        port_stat("mlx5_0", 2, &[("tx_pkts", 130)]),
        port_stat("mlx5_0", 1, &[("tx_pkts", 3)]),
    ];
    let out = rates_between(&prev, &curr, SECOND_NS);
    assert_eq!(out.len(), 2);
    assert_eq!((out[0].port, delta(&out[0].tx_pkts)), (2, 30));
    assert_eq!((out[1].port, delta(&out[1].tx_pkts)), (1, 2));
}

#[test]
fn counter_without_baseline_counts_from_zero() {
    let stat = port_stat("efa0", 1, &[("rx_pkts", 5)]);
    assert_eq!(counter_delta("rx_pkts", 8, Some(&stat)), 3);
    assert_eq!(counter_delta("tx_pkts", 8, Some(&stat)), 8);
    assert_eq!(counter_delta("rx_pkts", 8, None), 8);
    assert_eq!(counter_delta("rx_pkts", 4, Some(&stat)), 0);
}

#[test]
fn byte_counters_are_known_by_name() {
    assert!(is_bytes_counter("tx_bytes"));
    assert!(is_bytes_counter("rdma_read_resp_bytes"));
    assert!(is_bytes_counter("rdma_write_recv_bytes"));
    assert!(!is_bytes_counter("tx_pkts"));
    assert!(!is_bytes_counter("bytes_tx"));
}

#[test]
fn nothing_over_no_time_has_no_value() {
    let nan = Mean::of(0, 0);
    let inf = Mean::of(1, 0);
    let some = Mean::of(1, SECOND_NS);
    let none = Mean::of(0, SECOND_NS);
    assert!(!nan.is_value() && !nan.is_above_zero());
    assert!(inf.is_value() && inf.is_above_zero());
    assert!(some.is_above_zero() && !none.is_above_zero());
    // As the sums of the same quotients in floating point.
    assert!(is_sum_above_zero(&[none.clone(), some.clone()]));
    assert!(!is_sum_above_zero(&[nan, some]));
    assert!(!is_sum_above_zero(&[none]));
    assert!(!is_sum_above_zero(&[]));
    assert!(0.0f64 + 0.0 / 1.0 <= 0.0 && !((0.0f64 / 0.0) + 1.0 > 0.0));
}
