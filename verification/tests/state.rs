//! The state of the interface and the keys that change it.

use rdmatop::gpu::GpuMetrics;
use rdmatop::metrics::Mean;
use rdmatop::nvlink::NvLinkSnapshot;
use rdmatop::sampler::{IfStats, Sample, Snapshot};
use rdmatop::stat::{HwCounter, PortStat, ProcessRdmaInfo};
use rdmatop::tui::app::{
    detect_tabs, port_metrics, trace_filename, App, DeviceHistory, NetWindow, HISTORY_LEN,
};
use rdmatop::tui::columns::{all_columns, DeviceClass};
use rdmatop::tui::events::{handle_key, Key};
use rdmatop::tui::rows::PortThroughput;
use rdmatop::tui::sysinfo::{CpuUsage, SysInfo};

const SEC: u64 = 1_000_000_000;

fn sysinfo() -> SysInfo {
    SysInfo {
        hostname: "host".to_string(),
        uptime: "up 0 days, 0:00".to_string(),
        load_avg: "0, 0, 0".to_string(),
        mem_total_mb: 2048,
        mem_used_mb: 1024,
        cpu: CpuUsage { busy: 1, total: 4 },
    }
}

fn new_app() -> App {
    App::new(sysinfo(), 3)
}

fn per_sec(mean: &Mean) -> f64 {
    match mean {
        Mean::One(r) => r.delta as f64 / (r.elapsed_ns as f64 / 1e9),
        Mean::Of(parts) if parts.is_empty() => 0.0,
        Mean::Of(parts) => parts.iter().map(per_sec).sum::<f64>() / parts.len() as f64,
    }
}

/// The count of a mean that is a single rate.
fn delta(mean: &Mean) -> u64 {
    match mean {
        Mean::One(r) => r.delta,
        Mean::Of(_) => panic!("not a single rate"),
    }
}

fn gbps(mean: &Mean) -> f64 {
    per_sec(mean) * 8.0 / 1e9
}

fn row(class: DeviceClass, name: &str) -> PortThroughput {
    PortThroughput {
        dev_name: name.to_string(),
        port: 1,
        link_mbps: None,
        tx_bytes: Mean::zero(),
        rx_bytes: Mean::zero(),
        tx_pkts: Mean::zero(),
        rx_pkts: Mean::zero(),
        rx_drops: Mean::zero(),
        counter_rates: Vec::new(),
        port_label: None,
        nvlink: None,
        xgmi: None,
        class,
    }
}

#[test]
fn detect_tabs_is_sticky() {
    let mut seen = vec![DeviceClass::Rdma];
    detect_tabs(&mut seen, &[row(DeviceClass::Xgmi, "amdgpu0")]);
    assert_eq!(seen, vec![DeviceClass::Rdma, DeviceClass::Xgmi]);
    // rows disappear -> tab stays
    detect_tabs(&mut seen, &[]);
    assert_eq!(seen, vec![DeviceClass::Rdma, DeviceClass::Xgmi]);
    // no duplicates
    detect_tabs(&mut seen, &[row(DeviceClass::Xgmi, "amdgpu0")]);
    assert_eq!(seen.len(), 2);
}

#[test]
fn detect_tabs_orders_rdma_xgmi_nvlink() {
    let mut seen = vec![DeviceClass::Rdma];
    detect_tabs(&mut seen, &[row(DeviceClass::Nvlink, "nvidia0")]);
    detect_tabs(&mut seen, &[row(DeviceClass::Xgmi, "amdgpu0")]);
    assert_eq!(
        seen,
        vec![DeviceClass::Rdma, DeviceClass::Xgmi, DeviceClass::Nvlink]
    );
}

#[test]
fn display_filters_by_active_tab() {
    let mut app = new_app();
    app.throughputs = vec![
        row(DeviceClass::Rdma, "mlx5_0"),
        row(DeviceClass::Rdma, "mlx5_1"),
        row(DeviceClass::Xgmi, "amdgpu0"),
    ];
    app.active_tab = DeviceClass::Rdma;
    app.recompute_display();
    assert_eq!(app.display_throughputs().len(), 2);
    app.active_tab = DeviceClass::Xgmi;
    app.recompute_display();
    assert_eq!(app.display_throughputs().len(), 1);
    assert_eq!(app.display_throughputs()[0].dev_name, "amdgpu0");
}

#[test]
fn cycle_wraps_and_remembers_selection() {
    let mut app = new_app();
    app.throughputs = vec![
        row(DeviceClass::Rdma, "mlx5_0"),
        row(DeviceClass::Rdma, "mlx5_1"),
        row(DeviceClass::Rdma, "mlx5_2"),
        row(DeviceClass::Xgmi, "amdgpu0"),
    ];
    app.seen_tabs = vec![DeviceClass::Rdma, DeviceClass::Xgmi];
    app.active_tab = DeviceClass::Rdma;
    app.recompute_display();
    app.selected_row = 2;
    app.cycle_tab(true);
    assert_eq!(app.active_tab, DeviceClass::Xgmi);
    assert_eq!(app.selected_row, 0);
    app.cycle_tab(true); // wraps back
    assert_eq!(app.active_tab, DeviceClass::Rdma);
    assert_eq!(app.selected_row, 2, "remembered per-tab cursor");
    app.cycle_tab(false); // backward wraps to Xgmi
    assert_eq!(app.active_tab, DeviceClass::Xgmi);
}

#[test]
fn single_tab_cycle_is_noop() {
    let mut app = new_app();
    app.seen_tabs = vec![DeviceClass::Rdma];
    app.active_tab = DeviceClass::Rdma;
    app.cycle_tab(true);
    assert_eq!(app.active_tab, DeviceClass::Rdma);
}

fn port_stat(dev: &str, tx_bytes: u64) -> PortStat {
    PortStat {
        dev_name: dev.to_string(),
        port: 1,
        link_mbps: Some(400_000),
        state: None,
        counters: vec![HwCounter { name: "tx_bytes".to_string(), value: tx_bytes }],
    }
}

fn sample<T>(data: Vec<T>, taken_at: u64) -> Option<Sample<T>> {
    Some(Sample { data, taken_at })
}

fn snapshot(stats: Vec<PortStat>, taken_at: u64) -> Snapshot {
    Snapshot {
        stats: sample(stats, taken_at),
        ifstats: sample(Vec::new(), taken_at),
        nvlink: sample(Vec::new(), taken_at),
        xgmi: sample(Vec::new(), taken_at),
        processes: Some(Vec::new()),
        taken_at,
    }
}

fn gpu_snapshot(tx_bytes: u64, taken_at: u64) -> Snapshot {
    let gpu = NvLinkSnapshot {
        gpu_index: 0,
        gpu_name: "test-gpu".to_string(),
        metrics: Some(GpuMetrics { util_pct: Some(42), ..Default::default() }),
        link_count: 0,
        link_mbps: None,
        tx_bytes: Some(tx_bytes),
        rx_bytes: Some(0),
        links: Vec::new(),
    };
    Snapshot {
        stats: None, // e.g. kernel without rdma netlink support
        ifstats: sample(Vec::new(), taken_at),
        nvlink: sample(vec![gpu], taken_at),
        xgmi: sample(Vec::new(), taken_at),
        processes: Some(Vec::new()),
        taken_at,
    }
}

const T0: u64 = 77 * SEC;

#[test]
fn gpu_util_flows_into_history() {
    let mut app = new_app();
    app.apply_snapshot(gpu_snapshot(0, T0), sysinfo());
    app.apply_snapshot(gpu_snapshot(1_000, T0 + 2 * SEC), sysinfo());
    let h = app.history_of("nvidia0").expect("history for nvidia0");
    assert_eq!(h.util.len(), 2);
    assert_eq!(h.util[0], 42);
}

#[test]
fn rates_use_per_subsystem_read_timestamps() {
    // A slow pass must not skew a subsystem read later in it: the GPU
    // sample's own timestamp, not the pass start, drives its elapsed.
    let mut app = new_app();
    let mut first = gpu_snapshot(0, T0);
    // First pass was slow: GPU counters actually read 2s after pass start.
    first.nvlink.as_mut().unwrap().taken_at = T0 + 2 * SEC;
    app.apply_snapshot(first, sysinfo());
    // Second pass, fast: read at t0+4s -> true GPU window is 2s, not 4s.
    app.apply_snapshot(gpu_snapshot(1_000_000_000, T0 + 4 * SEC), sysinfo());
    // 1e9 bytes * 8 / 2 s / 1e9 = 4.0 Gbps (2.0 would mean pass-start skew)
    assert!((gbps(&app.throughputs[0].tx_bytes) - 4.0).abs() < 1e-9);
}

#[test]
fn first_snapshot_populates_rows_with_zero_rates() {
    let mut app = new_app();
    app.apply_snapshot(snapshot(vec![port_stat("mlx5_0", 1_000_000)], T0), sysinfo());
    assert!(app.has_data);
    assert_eq!(app.throughputs.len(), 1);
    assert_eq!(app.throughputs[0].dev_name, "mlx5_0");
    assert_eq!(gbps(&app.throughputs[0].tx_bytes), 0.0); // baseline, no delta yet
}

#[test]
fn second_snapshot_computes_rates_from_thread_timestamps() {
    let mut app = new_app();
    app.apply_snapshot(snapshot(vec![port_stat("mlx5_0", 0)], T0), sysinfo());
    // +1 GB over exactly 2s (thread timestamps, not wall clock here)
    let t1 = T0 + 2 * SEC;
    app.apply_snapshot(snapshot(vec![port_stat("mlx5_0", 1_000_000_000)], t1), sysinfo());
    // 1e9 bytes * 8 bits / 2 s / 1e9 = 4.0 Gbps
    assert!((gbps(&app.throughputs[0].tx_bytes) - 4.0).abs() < 1e-9);
}

#[test]
fn subsecond_duplicate_snapshot_is_skipped() {
    let mut app = new_app();
    app.apply_snapshot(snapshot(vec![port_stat("mlx5_0", 0)], T0), sysinfo());
    app.apply_snapshot(
        snapshot(vec![port_stat("mlx5_0", 999)], T0 + 50 * 1_000_000),
        sysinfo(),
    );
    // Skipped: rates still the baseline zeros.
    assert_eq!(gbps(&app.throughputs[0].tx_bytes), 0.0);
    // The skipped counters must not have become the new baseline: the
    // next snapshot diffs against the FIRST t0 baseline (0 bytes).
    app.apply_snapshot(
        snapshot(vec![port_stat("mlx5_0", 1_000_000_000)], T0 + 2 * SEC),
        sysinfo(),
    );
    // 1e9 bytes * 8 / 2 s / 1e9 = 4.0 Gbps (4.1 would mean 999 leaked in)
    assert!((gbps(&app.throughputs[0].tx_bytes) - 4.0).abs() < 1e-9);
}

#[test]
fn failed_rdma_read_holds_rdma_state_only() {
    let mut app = new_app();
    app.apply_snapshot(snapshot(vec![port_stat("mlx5_0", 0)], T0), sysinfo());
    let mut bad = snapshot(Vec::new(), T0 + 2 * SEC);
    bad.stats = None;
    app.apply_snapshot(bad, sysinfo());
    // RDMA rows and baseline are held, not blanked.
    assert_eq!(app.throughputs.len(), 1);
    // Next good snapshot diffs against the FIRST baseline: no spike.
    app.apply_snapshot(
        snapshot(vec![port_stat("mlx5_0", 1_000_000_000)], T0 + 4 * SEC),
        sysinfo(),
    );
    // 1e9 bytes * 8 / 4 s / 1e9 = 2.0 Gbps
    assert!((gbps(&app.throughputs[0].tx_bytes) - 2.0).abs() < 1e-9);
}

#[test]
fn gpu_data_flows_when_rdma_read_always_fails() {
    // A kernel without rdma netlink must still show NVLink data.
    let mut app = new_app();
    app.apply_snapshot(gpu_snapshot(0, T0), sysinfo());
    assert!(app.has_data);
    assert_eq!(app.throughputs.len(), 1);
    assert_eq!(gbps(&app.throughputs[0].tx_bytes), 0.0); // GPU baseline
    app.apply_snapshot(gpu_snapshot(1_000_000_000, T0 + 2 * SEC), sysinfo());
    // 1e9 bytes * 8 / 2 s / 1e9 = 4.0 Gbps
    assert!((gbps(&app.throughputs[0].tx_bytes) - 4.0).abs() < 1e-9);
}

#[test]
fn a_snapshot_just_past_the_guard_is_taken() {
    let mut app = new_app();
    app.apply_snapshot(snapshot(vec![port_stat("a", 0)], T0), sysinfo());
    app.apply_snapshot(snapshot(vec![port_stat("a", 1)], T0 + 99_999_999), sysinfo());
    assert_eq!(app.prev_taken_at, Some(T0));
    app.apply_snapshot(snapshot(vec![port_stat("a", 1)], T0 + 100_000_000), sysinfo());
    assert_eq!(app.prev_taken_at, Some(T0 + 100_000_000));
    // One that comes from before the last is a duplicate too.
    app.apply_snapshot(snapshot(vec![port_stat("a", 1)], T0), sysinfo());
    assert_eq!(app.prev_taken_at, Some(T0 + 100_000_000));
}

#[test]
fn rows_of_all_subsystems_come_in_device_order() {
    let mut app = new_app();
    let mut snap = gpu_snapshot(0, T0);
    snap.stats = sample(vec![port_stat("mlx5_10", 0), port_stat("mlx5_2", 0)], T0);
    app.apply_snapshot(snap, sysinfo());
    let names: Vec<_> = app.throughputs.iter().map(|t| t.dev_name.as_str()).collect();
    assert_eq!(names, vec!["mlx5_2", "mlx5_10", "nvidia0"]);
    assert_eq!(app.seen_tabs, vec![DeviceClass::Rdma, DeviceClass::Nvlink]);
    assert_eq!(app.display_throughputs().len(), 2);
}

#[test]
fn histories_are_bounded() {
    let mut app = new_app();
    for i in 0..70 {
        app.apply_snapshot(gpu_snapshot(i * 1000, T0 + i * SEC), sysinfo());
    }
    let h = app.history_of("nvidia0").unwrap();
    assert_eq!((h.tx.len(), h.rx.len(), h.util.len()), (60, 60, 60));
    assert_eq!(app.cpu_history.len(), HISTORY_LEN);
    let mut plain = DeviceHistory::new();
    plain.push(Mean::of(1, SEC), Mean::of(2, SEC));
    plain.push_util(9);
    assert_eq!((delta(&plain.tx[0]), delta(&plain.rx[0])), (1, 2));
    assert_eq!(plain.util, vec![9]);
}

#[test]
fn the_cursor_stays_on_a_row() {
    let mut app = new_app();
    app.apply_snapshot(
        snapshot(vec![port_stat("a", 0), port_stat("b", 0), port_stat("c", 0)], T0),
        sysinfo(),
    );
    for _ in 0..5 {
        app.move_down();
    }
    assert_eq!(app.selected_row, 2);
    app.apply_snapshot(snapshot(vec![port_stat("a", 0)], T0 + SEC), sysinfo());
    assert_eq!(app.selected_row, 0);
    app.apply_snapshot(snapshot(Vec::new(), T0 + 2 * SEC), sysinfo());
    assert_eq!(app.selected_row, 0);
    app.move_down();
    app.move_up();
    assert_eq!(app.selected_row, 0);
    assert!(app.selected_throughput().is_none());
    assert!(app.selected_device_processes().is_empty());
}

#[test]
fn a_stalled_sampler_is_flagged() {
    let mut app = new_app();
    assert_eq!(app.stale_secs(T0), None);
    app.apply_snapshot(snapshot(Vec::new(), T0), sysinfo());
    assert_eq!(app.stale_secs(T0 + 3 * SEC), None);
    assert_eq!(app.stale_secs(T0 + 3 * SEC + 1), Some(3));
    for _ in 0..3 {
        app.decrease_refresh_interval();
    }
    assert_eq!(app.refresh_interval_ns, 200_000_000);
    // Three times the interval is less than the two seconds it takes.
    assert_eq!(app.stale_secs(T0 + 2 * SEC), None);
    assert_eq!(app.stale_secs(T0 + 2 * SEC + 1), Some(2));
}

#[test]
fn the_refresh_interval_is_clamped() {
    let mut app = new_app();
    app.increase_refresh_interval();
    assert_eq!(app.refresh_interval_ns, 1_500_000_000);
    for _ in 0..40 {
        app.increase_refresh_interval();
    }
    assert_eq!(app.refresh_interval_ns, 10 * SEC);
    for _ in 0..40 {
        app.decrease_refresh_interval();
    }
    assert_eq!(app.refresh_interval_ns, 200_000_000);
    app.increase_refresh_interval();
    assert_eq!(app.refresh_interval_ns, 700_000_000);
}

#[test]
fn recording_starts_stops_and_survives_a_failed_write() {
    let mut app = new_app();
    assert_eq!(app.toggle_recording(T0, 5), None);
    assert_eq!(app.recording_progress(T0 + 3 * SEC), Some((3, 0)));
    assert_eq!(app.toggle_recording(T0, 5), None);
    assert!(app.recorder.is_none());
    assert_eq!(app.record_status.as_deref(), Some("recording stopped (nothing captured)"));
    app.toggle_recording(T0, 5);
    assert_eq!(app.record_status, None);
    app.apply_snapshot(snapshot(vec![port_stat("a", 0)], T0 + SEC), sysinfo());
    assert_eq!(app.recording_progress(T0 + SEC), Some((1, 1)));
    assert_eq!(app.toggle_recording(T0, 99).as_deref(), Some("rdmatop-99.json"));
    app.finish_recording("rdmatop-99.json", Some("disk full"));
    assert_eq!(
        app.record_status.as_deref(),
        Some("save failed: disk full (still recording)")
    );
    assert_eq!(app.recording_progress(T0 + SEC), Some((1, 1)));
    app.finish_recording("rdmatop-99.json", None);
    assert_eq!(app.record_status.as_deref(), Some("saved rdmatop-99.json (1 samples)"));
    assert_eq!(app.recording_progress(T0), None);
    // Nothing is left to finish.
    app.finish_recording("x", Some("late"));
    assert_eq!(app.record_status.as_deref(), Some("saved rdmatop-99.json (1 samples)"));
    assert_eq!(trace_filename(0), "rdmatop-0.json");
}

#[test]
fn recorded_figures_are_those_of_the_rows() {
    let mut one = row(DeviceClass::Rdma, "a");
    one.tx_bytes = Mean::of(5, SEC);
    one.rx_drops = Mean::of(6, SEC);
    let out = port_metrics(&[one]);
    assert_eq!(out[0].dev_name, "a");
    assert_eq!(delta(&out[0].tx_bytes), 5);
    assert_eq!(delta(&out[0].rx_drops), 6);
}

#[test]
fn network_bytes_are_summed_over_known_interfaces() {
    let iface = |name: &str, rx: u64, tx: u64| IfStats {
        name: name.to_string(),
        rx_bytes: rx,
        tx_bytes: tx,
    };
    let net = NetWindow {
        prev: vec![iface("eth0", 10, 20), iface("eth1", 5, 5)],
        curr: vec![iface("eth1", 9, 4), iface("eth0", 15, 40), iface("eth2", 100, 100)],
        elapsed_ns: SEC,
    };
    assert_eq!(net.totals(), (9, 20));
}

#[test]
fn the_network_span_needs_two_readings() {
    let mut app = new_app();
    app.apply_snapshot(snapshot(Vec::new(), T0), sysinfo());
    assert!(app.net.is_none());
    app.apply_snapshot(snapshot(Vec::new(), T0 + 2 * SEC), sysinfo());
    assert_eq!(app.net.as_ref().unwrap().elapsed_ns, 2 * SEC);
}

fn press(app: &mut App, keys: &[Key]) {
    for key in keys {
        handle_key(app, *key, T0, 1);
    }
}

#[test]
fn keys_move_and_scroll() {
    let mut app = new_app();
    app.apply_snapshot(
        snapshot(vec![port_stat("a", 0), port_stat("b", 0)], T0),
        sysinfo(),
    );
    press(&mut app, &[Key::Down, Key::Char('j')]);
    assert_eq!(app.selected_row, 1);
    press(&mut app, &[Key::Char('k')]);
    assert_eq!(app.selected_row, 0);
    app.h_scroll_max = 2;
    press(&mut app, &[Key::Right, Key::Right, Key::Right, Key::Left]);
    assert_eq!(app.h_scroll, 1);
    press(&mut app, &[Key::Char('t'), Key::Char('t'), Key::Char('t'), Key::Char('t')]);
    assert_eq!(app.theme, 1);
    press(&mut app, &[Key::Other, Key::Backspace, Key::Char('z')]);
    assert!(!app.should_quit);
    press(&mut app, &[Key::Esc]);
    assert!(app.should_quit);
}

#[test]
fn the_detail_pane_scrolls_into_its_neighbours() {
    let mut app = new_app();
    app.apply_snapshot(
        snapshot(vec![port_stat("a", 0), port_stat("b", 0)], T0),
        sysinfo(),
    );
    app.detail_max_scroll = 2;
    press(&mut app, &[Key::Enter, Key::Down, Key::Down]);
    assert!(app.show_detail);
    assert_eq!((app.selected_row, app.detail_scroll), (0, 2));
    press(&mut app, &[Key::Down]);
    assert_eq!((app.selected_row, app.detail_scroll), (1, 0));
    press(&mut app, &[Key::Up]);
    assert_eq!((app.selected_row, app.detail_scroll), (0, 0));
    press(&mut app, &[Key::Esc]);
    assert!(!app.show_detail && !app.should_quit);
    press(&mut app, &[Key::Enter, Key::Char('q')]);
    assert!(app.should_quit);
}

#[test]
fn popups_take_the_keys_first() {
    let mut app = new_app();
    press(&mut app, &[Key::Char('w')]);
    assert!(app.show_window_input);
    assert_eq!(app.window_input_buf, "5");
    press(&mut app, &[Key::Backspace, Key::Char('4'), Key::Char('q'), Key::Char('2')]);
    assert_eq!(app.window_input_buf, "42");
    press(&mut app, &[Key::Char('1'), Key::Char('1'), Key::Char('1'), Key::Enter]);
    assert_eq!(app.rolling_avg.window_secs, 300);
    assert!(!app.show_window_input && app.window_input_buf.is_empty());
    // Nothing typed keeps the window, and so does leaving.
    press(&mut app, &[Key::Char('w'), Key::Enter]);
    assert_eq!(app.rolling_avg.window_secs, 300);
    press(&mut app, &[Key::Char('w'), Key::Char('9'), Key::Esc]);
    assert_eq!(app.rolling_avg.window_secs, 300);
    press(
        &mut app,
        &[
            Key::Char('w'),
            Key::Backspace,
            Key::Backspace,
            Key::Backspace,
            Key::Backspace,
            Key::Enter,
        ],
    );
    assert_eq!(app.rolling_avg.window_secs, 300);
    assert!(!app.should_quit);
}

#[test]
fn help_swallows_the_other_keys() {
    let mut app = new_app();
    press(&mut app, &[Key::Char('h'), Key::Char('q'), Key::Enter]);
    assert!(app.show_help && !app.should_quit && !app.show_detail);
    press(&mut app, &[Key::Esc]);
    assert!(!app.show_help && !app.should_quit);
    press(&mut app, &[Key::Char('h'), Key::Char('h')]);
    assert!(!app.show_help);
}

#[test]
fn columns_are_picked_and_one_always_stays() {
    let mut app = new_app();
    press(&mut app, &[Key::Char('c')]);
    assert!(app.show_column_picker);
    // The first nine are shown already: take them all away but the last.
    for _ in 0..9 {
        press(&mut app, &[Key::Char(' '), Key::Down]);
    }
    assert_eq!(app.columns.len(), 1);
    // The cursor is behind them now; add two counters.
    press(&mut app, &[Key::Enter, Key::Char('j'), Key::Char(' ')]);
    assert_eq!(app.columns.len(), 3);
    assert_eq!(app.columns[1].label(), "send_bytes");
    press(&mut app, &[Key::Char(' ')]);
    assert_eq!(app.columns.len(), 2);
    for _ in 0..60 {
        press(&mut app, &[Key::Down]);
    }
    assert_eq!(app.column_picker_cursor, all_columns().len() - 1);
    press(&mut app, &[Key::Char('c')]);
    assert!(!app.show_column_picker);
    app.active_tab = DeviceClass::Xgmi;
    app.open_column_picker();
    assert!(!app.show_column_picker);
}

#[test]
fn tab_keys_go_round() {
    let mut app = new_app();
    let mut snap = gpu_snapshot(0, T0);
    snap.stats = sample(vec![port_stat("mlx5_0", 0), port_stat("mlx5_1", 0)], T0);
    app.apply_snapshot(snap, sysinfo());
    press(&mut app, &[Key::Down, Key::Tab]);
    assert_eq!(app.active_tab, DeviceClass::Nvlink);
    press(&mut app, &[Key::BackTab]);
    assert_eq!((app.active_tab, app.selected_row), (DeviceClass::Rdma, 1));
    press(&mut app, &[Key::Enter, Key::Tab]);
    assert_eq!(app.active_tab, DeviceClass::Nvlink);
    assert!(app.show_detail);
}

#[test]
fn averages_are_shown_on_demand() {
    let mut app = new_app();
    for (i, tx) in [0, 1_000_000_000, 1_000_000_000].iter().enumerate() {
        app.apply_snapshot(snapshot(vec![port_stat("a", *tx)], T0 + i as u64 * SEC), sysinfo());
    }
    assert_eq!(gbps(&app.display_throughputs()[0].tx_bytes), 0.0);
    press(&mut app, &[Key::Char('a')]);
    assert!((gbps(&app.display_throughputs()[0].tx_bytes) - 8.0 / 3.0).abs() < 1e-9);
    press(&mut app, &[Key::Char('-'), Key::Char('-'), Key::Char('-'), Key::Char('-')]);
    assert_eq!(app.rolling_avg.window_secs, 1);
    assert_eq!(gbps(&app.display_throughputs()[0].tx_bytes), 0.0);
    press(&mut app, &[Key::Char('+'), Key::Char('=')]);
    assert_eq!(app.rolling_avg.window_secs, 3);
    press(&mut app, &[Key::Char('>'), Key::Char('<')]);
    assert_eq!(app.refresh_interval_ns, SEC);
}

#[test]
fn the_recording_key_asks_for_a_file() {
    let mut app = new_app();
    assert_eq!(handle_key(&mut app, Key::Char('r'), T0, 7), None);
    app.apply_snapshot(snapshot(vec![port_stat("a", 0)], T0 + SEC), sysinfo());
    assert_eq!(
        handle_key(&mut app, Key::Char('r'), T0, 7).as_deref(),
        Some("rdmatop-7.json")
    );
    press(&mut app, &[Key::Enter]);
    assert_eq!(
        handle_key(&mut app, Key::Char('r'), T0, 8).as_deref(),
        Some("rdmatop-8.json")
    );
    press(&mut app, &[Key::Char('h')]);
    assert_eq!(handle_key(&mut app, Key::Char('r'), T0, 9), None);
}

#[test]
fn processes_of_the_selected_device_are_listed() {
    let process = |pid: u32, dev: &str| ProcessRdmaInfo {
        pid,
        dev_name: dev.to_string(),
        qp_count: 1,
        user: "root".to_string(),
        nice: 0,
        state: 'S',
        virt_kb: 1,
        res_kb: 1,
        shr_kb: 1,
        mem_total_kb: 100,
        threads: 1,
        cmdline: "x".to_string(),
    };
    let mut app = new_app();
    let mut snap = snapshot(vec![port_stat("a", 0), port_stat("b", 0)], T0);
    snap.processes = Some(vec![process(1, "b"), process(2, "a"), process(3, "b")]);
    app.apply_snapshot(snap, sysinfo());
    app.move_down();
    let pids: Vec<_> = app.selected_device_processes().iter().map(|p| p.pid).collect();
    assert_eq!(pids, vec![1, 3]);
}
