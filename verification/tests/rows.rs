//! Rows of the throughput table.

use rdmatop::metrics::{CounterRate, Mean, Rate, SECOND_NS};
use rdmatop::nvlink::{LinkSnapshot, NvLinkSnapshot, RemoteDeviceType};
use rdmatop::stat::{HwCounter, PortStat};
use rdmatop::tui::columns::DeviceClass;
use rdmatop::tui::rolling::RollingAvgState;
use rdmatop::tui::rows::{
    compute_nvlink_throughputs, compute_throughputs, compute_xgmi_throughputs, rate_by_name,
    sort_by_device_order, sort_by_throughput_order, throughput_key, NvLinkThroughputMeta,
    PortThroughput,
};
use rdmatop::xgmi::{XgmiLinkSnapshot, XgmiSnapshot};

fn per_sec(mean: &Mean) -> f64 {
    match mean {
        Mean::One(r) => r.delta as f64 / (r.elapsed_ns as f64 / 1e9),
        Mean::Of(parts) if parts.is_empty() => 0.0,
        Mean::Of(parts) => parts.iter().map(per_sec).sum::<f64>() / parts.len() as f64,
    }
}

fn bytes_to_gbps(bytes_per_sec: f64) -> f64 {
    bytes_per_sec * 8.0 / 1_000_000_000.0
}

fn gbps(mean: &Mean) -> f64 {
    bytes_to_gbps(per_sec(mean))
}

/// The bytes per second of a link, cut to a whole number.
fn whole(rate: Option<Rate>) -> Option<u64> {
    rate.map(|r| (r.delta as f64 / (r.elapsed_ns as f64 / 1e9)) as u64)
}

/// A mean with a throughput in Gbps.
fn at_gbps(v: f64) -> Mean {
    Mean::of((v * 1e9 / 8.0) as u64, SECOND_NS)
}

fn mk_link(id: u32, active: bool, tx: u64, rx: u64) -> XgmiLinkSnapshot {
    XgmiLinkSnapshot {
        link_id: id,
        is_active: active,
        speed_mbps: Some(512_000),
        bit_rate_mbps: Some(32_000),
        remote_pci_bdf: Some(format!("0000:0{}:00.0", id + 1)),
        tx_bytes: Some(tx),
        rx_bytes: Some(rx),
    }
}

fn mk_gpu(index: u32, links: Vec<XgmiLinkSnapshot>) -> XgmiSnapshot {
    let active = links.iter().filter(|l| l.is_active).count() as u64;
    XgmiSnapshot {
        gpu_index: index,
        gpu_name: "MI325X".to_string(),
        link_count: links.len() as u32,
        link_mbps: Some(512_000 * active),
        correctable_errors: Some(0),
        uncorrectable_errors: Some(0),
        metrics: None,
        links,
    }
}

#[test]
fn totals_are_sum_of_link_deltas() {
    let prev = vec![mk_gpu(
        0,
        vec![mk_link(0, true, 1000, 2000), mk_link(1, true, 500, 500)],
    )];
    let curr = vec![mk_gpu(
        0,
        vec![mk_link(0, true, 3000, 6000), mk_link(1, true, 1500, 1500)],
    )];
    let rows = compute_xgmi_throughputs(&prev, &curr, SECOND_NS);
    assert_eq!(rows.len(), 1);
    let row = &rows[0];
    assert_eq!(row.dev_name, "amdgpu0");
    // tx delta = (3000-1000)+(1500-500) = 3000 B/s; rx = 4000+1000 = 5000 B/s
    assert!((gbps(&row.tx_bytes) - bytes_to_gbps(3000.0)).abs() < 1e-12);
    assert!((gbps(&row.rx_bytes) - bytes_to_gbps(5000.0)).abs() < 1e-12);
    assert_eq!(row.port_label.as_deref(), Some("2/2"));
    // meta links carry per-second rates
    let meta = row.xgmi.as_ref().expect("xgmi meta present");
    assert_eq!(whole(meta.links[0].tx_rate), Some(2000));
    assert_eq!(whole(meta.links[0].rx_rate), Some(4000));
    assert_eq!(whole(meta.links[1].tx_rate), Some(1000));
    assert_eq!(whole(meta.links[1].rx_rate), Some(1000));
}

#[test]
fn unseen_gpu_emits_zero_rates() {
    // A GPU with no prior sample must not diff its lifetime accumulator
    // against zero (would render an absurd spike mid-run).
    let curr = vec![mk_gpu(0, vec![mk_link(0, true, 4096, 8192)])];
    let rows = compute_xgmi_throughputs(&[], &curr, 2 * SECOND_NS);
    let row = &rows[0];
    assert_eq!(gbps(&row.tx_bytes), 0.0);
    assert_eq!(gbps(&row.rx_bytes), 0.0);
    let meta = row.xgmi.as_ref().expect("xgmi meta present");
    assert_eq!(whole(meta.links[0].tx_rate), Some(0));
    assert_eq!(whole(meta.links[0].rx_rate), Some(0));
}

#[test]
fn counter_reappearing_after_gap_emits_zero() {
    // prev sample exists but carried no counter data: diffing the
    // reappeared lifetime accumulator against zero must not spike.
    let mut prev_link = mk_link(0, true, 0, 0);
    prev_link.tx_bytes = None;
    prev_link.rx_bytes = None;
    let prev = vec![mk_gpu(0, vec![prev_link])];
    let curr = vec![mk_gpu(
        0,
        vec![mk_link(0, true, u64::MAX / 2, u64::MAX / 2)],
    )];
    let rows = compute_xgmi_throughputs(&prev, &curr, SECOND_NS);
    assert_eq!(gbps(&rows[0].tx_bytes), 0.0);
    assert_eq!(gbps(&rows[0].rx_bytes), 0.0);
}

#[test]
fn missing_counters_stay_none() {
    // Peers without accumulator data must not fabricate 0.0 rates.
    let mut link = mk_link(0, true, 0, 0);
    link.tx_bytes = None;
    link.rx_bytes = None;
    let prev = vec![mk_gpu(0, vec![link.clone()])];
    let curr = vec![mk_gpu(0, vec![link])];
    let rows = compute_xgmi_throughputs(&prev, &curr, SECOND_NS);
    let meta = rows[0].xgmi.as_ref().expect("xgmi meta present");
    assert_eq!(whole(meta.links[0].tx_rate), None);
    assert_eq!(whole(meta.links[0].rx_rate), None);
}

#[test]
fn counter_going_backwards_clamps_to_zero() {
    let prev = vec![mk_gpu(0, vec![mk_link(0, true, 9999, 9999)])];
    let curr = vec![mk_gpu(0, vec![mk_link(0, true, 1, 1)])];
    let rows = compute_xgmi_throughputs(&prev, &curr, SECOND_NS);
    assert_eq!(gbps(&rows[0].tx_bytes), 0.0);
    assert_eq!(gbps(&rows[0].rx_bytes), 0.0);
}

#[test]
fn inactive_links_excluded_from_active_count() {
    let curr = vec![mk_gpu(
        0,
        vec![mk_link(0, true, 0, 0), mk_link(1, false, 0, 0)],
    )];
    let rows = compute_xgmi_throughputs(&[], &curr, SECOND_NS);
    assert_eq!(rows[0].port, 1);
    assert_eq!(rows[0].port_label.as_deref(), Some("1/2"));
}

#[test]
fn wafl_error_counters_emitted_with_deltas() {
    let mut prev_gpu = mk_gpu(0, vec![mk_link(0, true, 0, 0)]);
    prev_gpu.correctable_errors = Some(5);
    prev_gpu.uncorrectable_errors = Some(1);
    let mut curr_gpu = mk_gpu(0, vec![mk_link(0, true, 0, 0)]);
    curr_gpu.correctable_errors = Some(8);
    curr_gpu.uncorrectable_errors = Some(1);
    let rows = compute_xgmi_throughputs(&[prev_gpu], &[curr_gpu], SECOND_NS);
    let ce = rows[0]
        .counter_rates
        .iter()
        .find(|c| c.name == "xgmi_wafl_ce")
        .unwrap();
    assert_eq!(ce.value, 8);
    assert_eq!(ce.delta, 3);
    let ue = rows[0]
        .counter_rates
        .iter()
        .find(|c| c.name == "xgmi_wafl_ue")
        .unwrap();
    assert_eq!(ue.value, 1);
    assert_eq!(ue.delta, 0);
}

#[test]
fn throughput_key_uses_dev_name_for_xgmi_rows() {
    let rows =
        compute_xgmi_throughputs(&[], &[mk_gpu(3, vec![mk_link(0, true, 0, 0)])], SECOND_NS);
    assert_eq!(throughput_key(&rows[0]), "amdgpu3");
}

fn make_link(id: u32, active: bool, tx: Option<u64>, rx: Option<u64>) -> LinkSnapshot {
    LinkSnapshot {
        link_id: id,
        is_active: active,
        version: None,
        speed_mbps: if active { Some(50_000) } else { None },
        remote_device_type: RemoteDeviceType::Gpu,
        remote_pci_bdf: None,
        tx_bytes: tx,
        rx_bytes: rx,
        crc_error_count: None,
        replay_error_count: None,
        recovery_error_count: None,
    }
}

fn nv_gpu(
    gpu_index: u32,
    name: &str,
    link_count: u32,
    link_gbps: u64,
    links: Vec<LinkSnapshot>,
) -> NvLinkSnapshot {
    NvLinkSnapshot {
        gpu_index,
        gpu_name: name.to_string(),
        metrics: None,
        link_count,
        link_mbps: Some(link_gbps * 1000),
        tx_bytes: None,
        rx_bytes: None,
        links,
    }
}

#[test]
fn aggregates_only_active_links_and_sets_port_label() {
    let elapsed = SECOND_NS;
    let prev = vec![nv_gpu(
        0,
        "H100",
        2,
        100,
        vec![
            make_link(0, true, Some(1_000_000_000), Some(2_000_000_000)),
            make_link(1, true, Some(500_000_000), Some(0)),
        ],
    )];
    let curr = vec![nv_gpu(
        0,
        "H100",
        3,
        150,
        vec![
            make_link(0, true, Some(1_500_000_000), Some(2_500_000_000)),
            make_link(1, true, Some(700_000_000), Some(100_000_000)),
            make_link(2, false, None, None),
        ],
    )];

    let rows = compute_nvlink_throughputs(&prev, &curr, elapsed);
    assert_eq!(rows.len(), 1);

    let row = &rows[0];
    assert_eq!(row.dev_name, "nvidia0");
    assert_eq!(row.port, 2, "port column = active link count");
    assert_eq!(row.port_label.as_deref(), Some("2/3"));
    assert_eq!(row.link_mbps, Some(150_000));
    assert_eq!(per_sec(&row.tx_pkts), 0.0);
    assert_eq!(per_sec(&row.rx_pkts), 0.0);
    assert_eq!(per_sec(&row.rx_drops), 0.0);

    // NVML exposes a *GPU-wide* aggregate for TX/RX, so the aggregate is
    // the delta of the first active link only — NOT summed across links.
    let expected_tx_gbps = 500_000_000.0_f64 * 8.0 / 1_000_000_000.0;
    let expected_rx_gbps = 500_000_000.0_f64 * 8.0 / 1_000_000_000.0;
    let (tx_gbps, rx_gbps) = (gbps(&row.tx_bytes), gbps(&row.rx_bytes));
    assert!(
        (tx_gbps - expected_tx_gbps).abs() < 1e-6,
        "tx_gbps {} != {}",
        tx_gbps,
        expected_tx_gbps
    );
    assert!(
        (rx_gbps - expected_rx_gbps).abs() < 1e-6,
        "rx_gbps {} != {}",
        rx_gbps,
        expected_rx_gbps
    );

    // Per-link *throughput* counter rates (nvlink_tx_lN / nvlink_rx_lN)
    // are not emitted.
    assert!(
        !row.counter_rates
            .iter()
            .any(|c| c.name.starts_with("nvlink_tx_l")),
        "per-link TX throughput counter rates must not be emitted"
    );
    assert!(
        !row.counter_rates
            .iter()
            .any(|c| c.name.starts_with("nvlink_rx_l")),
        "per-link RX throughput counter rates must not be emitted"
    );

    let nv = row.nvlink.as_ref().expect("nvlink meta present");
    assert_eq!(nv.gpu_index, 0);
    assert_eq!(nv.gpu_name, "H100");
    assert_eq!(nv.active_links, 2);
    assert_eq!(nv.links.len(), 3);
}

#[test]
fn aggregate_throughput_is_not_multiplied_by_active_link_count() {
    // Two active links with identical TX/RX counters. NVML's per-link
    // counters are actually a GPU-wide aggregate, so summing the deltas
    // would double-count. The aggregate must reflect the single-link rate.
    let prev = vec![nv_gpu(
        0,
        "H100",
        2,
        100,
        vec![
            make_link(0, true, Some(1_000_000_000), Some(2_000_000_000)),
            make_link(1, true, Some(1_000_000_000), Some(2_000_000_000)),
        ],
    )];
    let curr = vec![nv_gpu(
        0,
        "H100",
        2,
        100,
        vec![
            make_link(0, true, Some(1_125_000_000), Some(2_125_000_000)),
            make_link(1, true, Some(1_125_000_000), Some(2_125_000_000)),
        ],
    )];

    let rows = compute_nvlink_throughputs(&prev, &curr, SECOND_NS);
    assert_eq!(rows.len(), 1);
    let row = &rows[0];

    // Single-link delta: tx = 0.125e9 bytes/sec, rx = 0.125e9 bytes/sec.
    let expected_tx_gbps = 125_000_000.0_f64 * 8.0 / 1_000_000_000.0;
    let expected_rx_gbps = 125_000_000.0_f64 * 8.0 / 1_000_000_000.0;
    let (tx_gbps, rx_gbps) = (gbps(&row.tx_bytes), gbps(&row.rx_bytes));
    assert!(
        (tx_gbps - expected_tx_gbps).abs() < 1e-6,
        "tx_gbps {} != single-link rate {}",
        tx_gbps,
        expected_tx_gbps
    );
    assert!(
        (rx_gbps - expected_rx_gbps).abs() < 1e-6,
        "rx_gbps {} != single-link rate {}",
        rx_gbps,
        expected_rx_gbps
    );
    // If the bug regresses the aggregate would be 2x.
    assert!(
        tx_gbps < expected_tx_gbps * 1.5,
        "tx_gbps {} unexpectedly large; sum-across-links bug?",
        tx_gbps
    );
    assert!(
        rx_gbps < expected_rx_gbps * 1.5,
        "rx_gbps {} unexpectedly large; sum-across-links bug?",
        rx_gbps
    );
    // Active-link count must still be reported for the port column.
    assert_eq!(row.port, 2);
    assert_eq!(row.port_label.as_deref(), Some("2/2"));
}

#[test]
fn aggregate_falls_back_to_first_link_when_no_active() {
    // With no active links, NVML may still report non-zero byte counters
    // on the (inactive) ports. We must pick one source for the aggregate;
    // falling back to the first link (in list order) avoids dropping
    // signal entirely when a GPU momentarily has no active links.
    let prev = vec![nv_gpu(
        0,
        "H100",
        2,
        100,
        vec![
            make_link(0, false, Some(0), Some(0)),
            make_link(1, false, Some(0), Some(0)),
        ],
    )];
    let curr = vec![nv_gpu(
        0,
        "H100",
        2,
        100,
        vec![
            make_link(0, false, Some(250_000_000), Some(125_000_000)),
            make_link(1, false, Some(999_999_999), Some(999_999_999)),
        ],
    )];

    let rows = compute_nvlink_throughputs(&prev, &curr, SECOND_NS);
    assert_eq!(rows.len(), 1);
    let row = &rows[0];

    // First link's delta wins.
    let expected_tx_gbps = 250_000_000.0_f64 * 8.0 / 1_000_000_000.0;
    let expected_rx_gbps = 125_000_000.0_f64 * 8.0 / 1_000_000_000.0;
    assert!((gbps(&row.tx_bytes) - expected_tx_gbps).abs() < 1e-6);
    assert!((gbps(&row.rx_bytes) - expected_rx_gbps).abs() < 1e-6);
    assert_eq!(row.port, 0);
    assert_eq!(row.port_label.as_deref(), Some("0/2"));
}

#[test]
fn missing_prev_snapshot_emits_zero_rates() {
    // NVML counters are cumulative since driver load: a GPU with no
    // prior sample must not diff them against zero (rate spike).
    let curr = vec![nv_gpu(
        1,
        "A100",
        1,
        50,
        vec![make_link(0, true, Some(2_000_000_000), Some(1_000_000_000))],
    )];

    let rows = compute_nvlink_throughputs(&[], &curr, 2 * SECOND_NS);
    assert_eq!(rows.len(), 1);
    let row = &rows[0];
    assert_eq!(row.dev_name, "nvidia1");
    assert_eq!(row.port_label.as_deref(), Some("1/1"));
    assert_eq!(gbps(&row.tx_bytes), 0.0);
    assert_eq!(gbps(&row.rx_bytes), 0.0);
}

#[test]
fn rolling_avg_keeps_history_across_active_link_changes() {
    // Build a single GPU NVLink snapshot with two active links.
    let prev = vec![nv_gpu(
        0,
        "H100",
        2,
        100,
        vec![
            make_link(0, true, Some(1_000_000_000), Some(2_000_000_000)),
            make_link(1, true, Some(500_000_000), Some(250_000_000)),
        ],
    )];
    let curr_first = vec![nv_gpu(
        0,
        "H100",
        3,
        150,
        vec![
            make_link(0, true, Some(1_500_000_000), Some(2_500_000_000)),
            make_link(1, true, Some(700_000_000), Some(350_000_000)),
            make_link(2, false, None, None),
        ],
    )];
    let rows_first = compute_nvlink_throughputs(&prev, &curr_first, SECOND_NS);
    assert_eq!(rows_first.len(), 1);
    assert_eq!(rows_first[0].port_label.as_deref(), Some("2/3"));

    let mut state = RollingAvgState::new(5);
    state.push(&rows_first);
    assert_eq!(state.samples.len(), 1);

    // Same GPU, different active link count -> port_label changes
    // from "2/3" to "3/3". The history entry must be reused, not
    // dropped and re-created.
    let curr_second = vec![nv_gpu(
        0,
        "H100",
        3,
        150,
        vec![
            make_link(0, true, Some(2_000_000_000), Some(3_000_000_000)),
            make_link(1, true, Some(900_000_000), Some(450_000_000)),
            make_link(2, true, Some(100_000_000), Some(50_000_000)),
        ],
    )];
    let rows_second = compute_nvlink_throughputs(&curr_first, &curr_second, SECOND_NS);
    assert_eq!(rows_second.len(), 1);
    assert_eq!(rows_second[0].port_label.as_deref(), Some("3/3"));

    state.push(&rows_second);

    // Still exactly one history entry: the key is stable.
    assert_eq!(
        state.samples.len(),
        1,
        "expected stable key for NVLink rows across active-link changes"
    );
    // Buffer should hold two samples (the two pushes).
    let buf = &state
        .samples
        .first()
        .expect("history entry for nvidia0")
        .rows;
    assert_eq!(buf.len(), 2);
    assert_eq!(buf[0].port_label.as_deref(), Some("2/3"));
    assert_eq!(buf[1].port_label.as_deref(), Some("3/3"));
}

#[test]
fn each_sample_counts_once_in_an_average() {
    let counter = |rate: Mean, delta: u64, value: u64| CounterRate {
        name: "tx_pkts".to_string(),
        value,
        delta,
        rate,
        is_bytes: false,
    };
    let one = |v: u64| Mean::of(v, SECOND_NS);
    // A mean of three readings that is 1, a reading of 5 and a mean of nothing.
    let three = || Mean::Of(vec![one(0), one(1), one(2)]);
    let mut first = row("mlx5_0", 1);
    first.tx_bytes = three();
    first.counter_rates = vec![counter(three(), 1, 10)];
    let mut second = row("mlx5_0", 1);
    second.tx_bytes = one(5);
    second.counter_rates = vec![counter(one(5), 5, 15)];
    let mut third = row("mlx5_0", 1);
    third.tx_bytes = Mean::Of(Vec::new());

    let pair = [first.clone(), second.clone()];
    let avg = RollingAvgState::average_window(&pair, 5).unwrap();
    assert_eq!(per_sec(&avg.tx_bytes), 3.0);
    assert_eq!(per_sec(&avg.counter_rates[0].rate), 3.0);
    assert_eq!((avg.counter_rates[0].delta, avg.counter_rates[0].value), (3, 15));

    // An average pushed back is one more sample, and a mean of nothing is zero.
    let mut state = RollingAvgState::new(5);
    state.push(&[avg.clone()]);
    state.push(&[third]);
    state.push(&[second]);
    let again = state.averages();
    assert_eq!(again.len(), 1);
    assert_eq!(per_sec(&again[0].tx_bytes), (3.0 + 0.0 + 5.0) / 3.0);
    // Only the two samples that have the counter are averaged.
    assert_eq!(per_sec(&again[0].counter_rates[0].rate), 4.0);

    // A counter that no sample has counts nothing.
    let other = CounterRate { name: "absent".to_string(), ..counter(one(9), 9, 9) };
    let none = RollingAvgState::average_counter_rate(&other, &pair);
    assert_eq!((per_sec(&none.rate), none.delta, none.value), (0.0, 0, 9));
}

#[test]
fn buffers_stay_one_per_row_and_bounded() {
    let mut state = RollingAvgState::new(300);
    for _ in 0..305 {
        state.push(&[row("a", 1), row("b", 1)]);
    }
    assert_eq!(state.samples.len(), 2);
    assert!(state.samples.iter().all(|b| b.rows.len() == 300));
    state.push(&[row("b", 1)]);
    assert_eq!(state.samples.len(), 1);
    assert_eq!(state.samples[0].key, "b/1");
}

#[test]
fn rolling_avg_returns_averaged_nvlink_row() {
    let prev = vec![nv_gpu(0, "H100", 1, 50, vec![make_link(0, true, Some(0), Some(0))])];
    let curr = vec![nv_gpu(
        0,
        "H100",
        1,
        50,
        vec![make_link(0, true, Some(1_000_000_000), Some(500_000_000))],
    )];

    let rows = compute_nvlink_throughputs(&prev, &curr, SECOND_NS);
    assert_eq!(rows.len(), 1);

    let mut state = RollingAvgState::new(5);
    state.push(&rows);

    let avgs = state.averages();
    assert_eq!(avgs.len(), 1);
    let avg = &avgs[0];
    assert_eq!(avg.dev_name, "nvidia0");
    let tx_gbps = gbps(&avg.tx_bytes);
    assert!(
        tx_gbps > 0.0,
        "expected non-empty averaged tx_gbps, got {}",
        tx_gbps
    );
    let expected_tx = 1_000_000_000.0_f64 * 8.0 / 1_000_000_000.0;
    assert!(
        (tx_gbps - expected_tx).abs() < 1e-6,
        "tx_gbps {} != {}",
        tx_gbps,
        expected_tx
    );
}

#[test]
fn saturating_sub_protects_against_counter_resets() {
    // Simulate NVML reloading the counters: prev is higher than curr.
    let prev = vec![nv_gpu(
        2,
        "B200",
        1,
        100,
        vec![make_link(0, true, Some(10_000_000_000), Some(20_000_000_000))],
    )];
    let curr = vec![nv_gpu(
        2,
        "B200",
        1,
        100,
        vec![make_link(0, true, Some(1_000), Some(2_000))],
    )];

    let rows = compute_nvlink_throughputs(&prev, &curr, SECOND_NS);
    assert_eq!(rows.len(), 1);
    assert_eq!(
        gbps(&rows[0].tx_bytes),
        0.0,
        "counter reset must not produce negative rate"
    );
    assert_eq!(gbps(&rows[0].rx_bytes), 0.0);
}

#[test]
fn averaged_row_uses_latest_metadata() {
    // Same GPU, two consecutive snapshots with different active-link
    // counts (and therefore different `port` and `port_label`). The
    // averaged row must reflect the *latest* metadata, not the oldest.
    let prev_a = vec![nv_gpu(0, "H100", 3, 150, vec![make_link(0, true, Some(0), Some(0))])];
    let curr_a = vec![nv_gpu(
        0,
        "H100",
        3,
        150,
        vec![
            make_link(0, true, Some(1_000_000_000), Some(2_000_000_000)),
            make_link(1, true, Some(500_000_000), Some(250_000_000)),
            make_link(2, false, None, None),
        ],
    )];
    let rows_first = compute_nvlink_throughputs(&prev_a, &curr_a, SECOND_NS);
    assert_eq!(rows_first.len(), 1);
    assert_eq!(rows_first[0].port_label.as_deref(), Some("2/3"));
    assert_eq!(rows_first[0].port, 2);

    // Second push: active link count rises to 3/3.
    let curr_b = vec![nv_gpu(
        0,
        "H100",
        3,
        150,
        vec![
            make_link(0, true, Some(2_000_000_000), Some(3_000_000_000)),
            make_link(1, true, Some(900_000_000), Some(450_000_000)),
            make_link(2, true, Some(100_000_000), Some(50_000_000)),
        ],
    )];
    let rows_second = compute_nvlink_throughputs(&curr_a, &curr_b, SECOND_NS);
    assert_eq!(rows_second.len(), 1);
    assert_eq!(rows_second[0].port_label.as_deref(), Some("3/3"));
    assert_eq!(rows_second[0].port, 3);

    let mut state = RollingAvgState::new(5);
    state.push(&rows_first);
    state.push(&rows_second);

    let avgs = state.averages();
    assert_eq!(avgs.len(), 1);
    let avg = &avgs[0];
    // Metadata must come from the latest sample, not the oldest.
    assert_eq!(
        avg.port_label.as_deref(),
        Some("3/3"),
        "averaged row must use latest sample's port_label"
    );
    assert_eq!(avg.port, 3, "averaged row must use latest sample's port");
    assert_eq!(avg.link_mbps, Some(150_000));
    assert_eq!(avg.dev_name, "nvidia0");
}

#[test]
fn aggregates_uses_gpu_wide_fields_when_present() {
    let mut before = nv_gpu(
        0,
        "H100",
        2,
        100,
        vec![
            make_link(0, true, Some(0), Some(0)),
            make_link(1, true, Some(0), Some(0)),
        ],
    );
    before.tx_bytes = Some(10_000_000_000);
    before.rx_bytes = Some(20_000_000_000);
    let mut after = nv_gpu(
        0,
        "H100",
        2,
        100,
        vec![
            make_link(0, true, Some(100_000), Some(200_000)), // lane rates, not used for aggregate
            make_link(1, true, Some(300_000), Some(400_000)),
        ],
    );
    after.tx_bytes = Some(15_000_000_000);
    after.rx_bytes = Some(25_000_000_000);

    let rows = compute_nvlink_throughputs(&[before], &[after], SECOND_NS);
    assert_eq!(rows.len(), 1);
    let row = &rows[0];

    // Aggregate should be:
    // tx = 15e9 - 10e9 = 5e9 bytes/sec -> 40 Gbps
    // rx = 25e9 - 20e9 = 5e9 bytes/sec -> 40 Gbps
    let expected_tx_gbps = 5_000_000_000.0_f64 * 8.0 / 1_000_000_000.0;
    let expected_rx_gbps = 5_000_000_000.0_f64 * 8.0 / 1_000_000_000.0;
    assert!((gbps(&row.tx_bytes) - expected_tx_gbps).abs() < 1e-6);
    assert!((gbps(&row.rx_bytes) - expected_rx_gbps).abs() < 1e-6);

    // However, individual lanes show the lane-specific rates.
    let nv = row.nvlink.as_ref().unwrap();
    assert_eq!(whole(nv.links[0].tx_rate), Some(100_000));
    assert_eq!(whole(nv.links[0].rx_rate), Some(200_000));
    assert_eq!(whole(nv.links[1].tx_rate), Some(300_000));
    assert_eq!(whole(nv.links[1].rx_rate), Some(400_000));
}

fn plain_row(
    dev_name: &str,
    port: u32,
    link_gbps: Option<u64>,
    tx_gbps: f64,
    rx_gbps: f64,
    class: DeviceClass,
) -> PortThroughput {
    PortThroughput {
        dev_name: dev_name.to_string(),
        port,
        link_mbps: link_gbps.map(|g| g * 1000),
        tx_bytes: at_gbps(tx_gbps),
        rx_bytes: at_gbps(rx_gbps),
        tx_pkts: Mean::zero(),
        rx_pkts: Mean::zero(),
        rx_drops: Mean::zero(),
        counter_rates: Vec::new(),
        port_label: None,
        nvlink: None,
        xgmi: None,
        class,
    }
}

fn nvlink_row(port: u32, label: &str, tx_gbps: f64, rx_gbps: f64) -> PortThroughput {
    let mut row = plain_row("nvidia0", port, Some(150), tx_gbps, rx_gbps, DeviceClass::Nvlink);
    row.port_label = Some(label.to_string());
    row.nvlink = Some(NvLinkThroughputMeta {
        gpu_index: 0,
        gpu_name: "H100".to_string(),
        active_links: port,
        links: Vec::new(),
        metrics: None,
    });
    row
}

#[test]
fn sort_order_stable_for_nvlink() {
    // Reference ordering: RDMA "mlx5_0/1", NVLink "nvidia0" (active=2),
    // RDMA "mlx5_1/1". The NVLink row sits in the middle.
    let nvlink_ref = nvlink_row(2, "2/3", 1.0, 2.0);
    let rdma_a_ref = plain_row("mlx5_0", 1, Some(100), 3.0, 4.0, DeviceClass::Rdma);
    let rdma_b_ref = plain_row("mlx5_1", 1, Some(100), 5.0, 6.0, DeviceClass::Rdma);
    let reference = vec![rdma_a_ref.clone(), nvlink_ref.clone(), rdma_b_ref.clone()];

    // Build the averaged rows in shuffled order. Note the NVLink row now
    // has `port: 3` (active-link count changed) and `port_label: "3/3"`.
    let nvlink_avg = nvlink_row(3, "3/3", 1.5, 2.5);
    let rdma_a_avg = plain_row("mlx5_0", 1, Some(100), 3.5, 4.5, DeviceClass::Rdma);
    let rdma_b_avg = plain_row("mlx5_1", 1, Some(100), 5.5, 6.5, DeviceClass::Rdma);
    let mut avgs = vec![rdma_b_avg.clone(), nvlink_avg.clone(), rdma_a_avg.clone()];

    sort_by_throughput_order(&mut avgs, &reference);

    // After sorting the averaged list must mirror the reference order:
    // mlx5_0, nvidia0, mlx5_1.
    assert_eq!(avgs[0].dev_name, "mlx5_0");
    assert_eq!(avgs[1].dev_name, "nvidia0");
    assert_eq!(avgs[2].dev_name, "mlx5_1");
    // The NVLink row must not have been pushed to the end, as it would be if
    // the sort key still held the changed `port` field.
    assert_eq!(avgs[1].dev_name, nvlink_ref.dev_name);
    assert_ne!(avgs[1].port, nvlink_ref.port);
    assert_eq!(avgs[1].port_label, nvlink_avg.port_label);
}

fn row(dev_name: &str, port: u32) -> PortThroughput {
    plain_row(dev_name, port, None, 0.0, 0.0, DeviceClass::Rdma)
}

fn names(rows: &[PortThroughput]) -> Vec<(String, u32)> {
    rows.iter().map(|t| (t.dev_name.clone(), t.port)).collect()
}

#[test]
fn sort_by_device_order_sorts_index_numerically_not_lexically() {
    // The whole point of natural order: mlx5_2 must precede mlx5_10.
    let mut rows = vec![row("mlx5_10", 1), row("mlx5_2", 1), row("mlx5_9", 1)];
    sort_by_device_order(&mut rows);
    let sorted: Vec<_> = rows.iter().map(|t| t.dev_name.clone()).collect();
    assert_eq!(sorted, vec!["mlx5_2", "mlx5_9", "mlx5_10"]);
}

#[test]
fn sort_by_device_order_orders_by_name_then_port() {
    let mut rows = vec![
        row("mlx5_10", 1),
        row("mlx5_2", 2),
        row("mlx5_2", 1),
        row("bnxt_0", 1),
    ];
    sort_by_device_order(&mut rows);
    assert_eq!(
        names(&rows),
        vec![
            ("bnxt_0".to_string(), 1),
            ("mlx5_2".to_string(), 1),
            ("mlx5_2".to_string(), 2),
            ("mlx5_10".to_string(), 1),
        ]
    );
}

#[test]
fn rows_unknown_to_the_reference_go_last_in_their_order() {
    let reference = vec![row("b", 1), row("a", 1)];
    let mut rows = vec![row("x", 1), row("a", 1), row("y", 1), row("b", 1)];
    sort_by_throughput_order(&mut rows, &reference);
    let sorted: Vec<_> = rows.iter().map(|t| t.dev_name.as_str()).collect();
    assert_eq!(sorted, vec!["b", "a", "x", "y"]);
}

#[test]
fn rdma_rows_are_keyed_by_port() {
    assert_eq!(throughput_key(&row("mlx5_0", 2)), "mlx5_0/2");
    assert_eq!(throughput_key(&nvlink_row(2, "2/3", 0.0, 0.0)), "nvidia0");
}

fn port_stat(dev: &str, tx: u64) -> PortStat {
    PortStat {
        dev_name: dev.to_string(),
        port: 1,
        link_mbps: Some(400_000),
        state: Some(4),
        counters: vec![
            HwCounter { name: "tx_bytes".to_string(), value: tx },
            HwCounter { name: "odd".to_string(), value: 1 },
        ],
    }
}

#[test]
fn a_port_without_a_reading_before_counts_from_zero() {
    let rows = compute_throughputs(&[], &[port_stat("a", 9)], SECOND_NS);
    assert!(matches!(rows[0].tx_bytes, Mean::One(Rate { delta: 9, elapsed_ns: SECOND_NS })));
    assert_eq!(rows[0].link_mbps, Some(400_000));
    assert_eq!(rows[0].counter_rates.len(), 2);
    assert!(rows[0].counter_rates[0].is_bytes && !rows[0].counter_rates[1].is_bytes);
    assert_eq!(rows[0].class, DeviceClass::Rdma);
}

#[test]
fn a_reading_compared_with_itself_counts_nothing() {
    let stats = [port_stat("a", 9), port_stat("b", 7)];
    for row in compute_throughputs(&stats, &stats, SECOND_NS) {
        assert_eq!(per_sec(&row.tx_bytes), 0.0);
        assert!(row.counter_rates.iter().all(|c| c.delta == 0));
    }
}

#[test]
fn the_first_counter_with_a_name_is_looked_up() {
    let rate = |name: &str, delta: u64| CounterRate {
        name: name.to_string(),
        value: 0,
        delta,
        rate: Mean::of(delta, SECOND_NS),
        is_bytes: false,
    };
    let rates = [rate("a", 1), rate("b", 2), rate("b", 3)];
    assert_eq!(per_sec(&rate_by_name(&rates, "b")), 2.0);
    assert_eq!(per_sec(&rate_by_name(&rates, "c")), 0.0);
}

#[test]
fn averages_span_the_window_only() {
    let mut state = RollingAvgState::new(2);
    for tx in [8.0, 16.0, 32.0] {
        state.push(&[plain_row("a", 1, None, tx, 0.0, DeviceClass::Rdma)]);
    }
    assert_eq!(state.sample_count(), 2);
    let avgs = state.averages();
    assert_eq!(gbps(&avgs[0].tx_bytes), 24.0);
    state.set_window(500);
    assert_eq!(state.window_secs, 300);
    assert!((gbps(&state.averages()[0].tx_bytes) - 56.0 / 3.0).abs() < 1e-9);
    state.set_window(0);
    assert_eq!(state.window_secs, 1);
    state.decrease_window();
    assert_eq!(state.window_secs, 1);
    state.increase_window();
    assert_eq!(state.window_secs, 2);
}

#[test]
fn averages_of_vanished_rows_are_dropped() {
    let mut state = RollingAvgState::new(5);
    state.push(&[row("a", 1), row("b", 1)]);
    state.push(&[row("b", 1)]);
    assert_eq!(state.samples.len(), 1);
    assert_eq!(state.averages()[0].dev_name, "b");
}
