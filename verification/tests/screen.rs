//! What the interface shows.

use rdmatop::metrics::{CounterRate, Mean, Rate, SECOND_NS};
use rdmatop::nvlink::{LinkSnapshot, RemoteDeviceType};
use rdmatop::sampler::{Sample, Snapshot};
use rdmatop::stat::{HwCounter, PortStat, ProcessRdmaInfo};
use rdmatop::tui::app::App;
use rdmatop::tui::columns::{all_columns, default_columns, DeviceClass, TableColumn};
use rdmatop::tui::rows::{
    NvLinkRate, NvLinkThroughputMeta, PortThroughput, XgmiLinkRate, XgmiThroughputMeta,
};
use rdmatop::tui::spans::{
    can_truncate, divide_half_even, fmt_mem_kb, mem_label, truncate, write_tenths, Line, Number,
    Piece, Span, Tone,
};
use rdmatop::tui::sysinfo::{CpuUsage, SysInfo};
use rdmatop::tui::ui::{
    append_active_counters, build_nvlink_detail_lines, build_selected_detail_lines,
    build_xgmi_detail_lines, can_show_process, centered_rect, column_cell, counter_color,
    draw_column_picker, draw_detail, draw_help_popup, draw_status_bar, draw_table,
    draw_window_input_popup, header_line1, header_line2, header_line3, picker_size, popup_rect,
    process_line, Area,
};
use rdmatop::xgmi::XgmiLinkSnapshot;

const SEC: u64 = 1_000_000_000;

fn per_sec(mean: &Mean) -> f64 {
    match mean {
        Mean::One(r) => r.delta as f64 / (r.elapsed_ns as f64 / 1e9),
        Mean::Of(parts) if parts.is_empty() => 0.0,
        Mean::Of(parts) => parts.iter().map(per_sec).sum::<f64>() / parts.len() as f64,
    }
}

fn gbps(mean: &Mean) -> f64 {
    per_sec(mean) * 8.0 / 1_000_000_000.0
}

fn number(n: &Number) -> String {
    match n {
        Number::Gbps(m) => format!("{:.2}", gbps(m)),
        Number::TotalGbps(v) => format!("{:.2}", v.iter().map(gbps).sum::<f64>()),
        Number::PerSec(m) => format!("{:.0}", per_sec(m)),
        Number::TotalPerSec(v) => format!("{:.0}", v.iter().map(per_sec).sum::<f64>()),
        Number::LinkMegabytes(r) => {
            let bytes = (r.delta as f64 / (r.elapsed_ns as f64 / 1e9)) as u64;
            format!("{:.1}", bytes as f64 / 1_000_000.0)
        }
        Number::GpuMegabytes(m) => format!("{:.1}", gbps(m) * 1000.0 / 8.0),
        Number::Percent { part, whole } => format!("{:.1}", *part as f64 / *whole as f64 * 100.0),
        Number::Bytes(m) => format!("{}B/s", per_sec(m)),
        Number::Events(m) => format!("{:.1}/s", per_sec(m)),
        Number::Packets(m) => format!("{:.0}pps", per_sec(m)),
        Number::Bar { .. } => "bar".to_string(),
        Number::Spark { rates, width } => format!("spark {} of {}", rates.len(), width),
        Number::GaugeFill { width, .. } => format!("fill{width}"),
        Number::GaugeRest { width, .. } => format!("rest{width}"),
        Number::ShortBytes { bytes, elapsed_ns } => format!("{bytes}B in {elapsed_ns}"),
    }
}

fn span_text(span: &Span) -> String {
    span.pieces
        .iter()
        .map(|p| match p {
            Piece::Text(s) => s.clone(),
            Piece::Number { value, width } => format!("{:>w$}", number(value), w = *width),
        })
        .collect()
}

fn line_text(line: &Line) -> String {
    line.spans.iter().map(span_text).collect()
}

fn join_lines(lines: &[Line]) -> String {
    lines.iter().map(|l| line_text(l) + "\n").collect()
}

#[allow(clippy::too_many_arguments)]
fn make_link(
    id: u32,
    active: bool,
    remote_type: RemoteDeviceType,
    remote_bdf: Option<&str>,
    tx_bytes: Option<u64>,
    rx_bytes: Option<u64>,
    crc: Option<u64>,
    replay: Option<u64>,
    recovery: Option<u64>,
    version: Option<u32>,
) -> NvLinkRate {
    let rate = |bytes: u64| Rate { delta: bytes, elapsed_ns: SECOND_NS };
    NvLinkRate {
        link: LinkSnapshot {
            link_id: id,
            is_active: active,
            version,
            speed_mbps: if active { Some(50_000) } else { None },
            remote_device_type: remote_type,
            remote_pci_bdf: remote_bdf.map(|s| s.to_string()),
            tx_bytes,
            rx_bytes,
            crc_error_count: crc,
            replay_error_count: replay,
            recovery_error_count: recovery,
        },
        tx_rate: tx_bytes.map(rate),
        rx_rate: rx_bytes.map(rate),
    }
}

fn row(dev_name: &str, port: u32, class: DeviceClass, tx_gbps: f64, rx_gbps: f64) -> PortThroughput {
    let mean = |v: f64| Mean::of((v * 1e9 / 8.0) as u64, SECOND_NS);
    PortThroughput {
        dev_name: dev_name.to_string(),
        port,
        link_mbps: Some(100_000),
        tx_bytes: mean(tx_gbps),
        rx_bytes: mean(rx_gbps),
        tx_pkts: Mean::zero(),
        rx_pkts: Mean::zero(),
        rx_drops: Mean::zero(),
        counter_rates: Vec::new(),
        port_label: None,
        nvlink: None,
        xgmi: None,
        class,
    }
}

fn nv_meta(links: &[NvLinkRate]) -> NvLinkThroughputMeta {
    NvLinkThroughputMeta {
        gpu_index: 0,
        gpu_name: "H100".to_string(),
        active_links: links.iter().filter(|l| l.link.is_active).count() as u32,
        links: links.to_vec(),
        metrics: None,
    }
}

fn make_port(
    dev_name: &str,
    links: Vec<NvLinkRate>,
    gbps: f64,
) -> (PortThroughput, NvLinkThroughputMeta) {
    let meta = nv_meta(&links);
    let mut port = row(dev_name, meta.active_links, DeviceClass::Nvlink, gbps, gbps);
    port.port_label = Some(format!("{}/{}", meta.active_links, links.len()));
    port.nvlink = Some(meta.clone());
    (port, meta)
}

#[test]
fn header_contains_device_and_active_count() {
    let switch = RemoteDeviceType::Switch;
    let bdf = Some("0000:01:00.0");
    let links = vec![
        make_link(0, true, switch, bdf, None, None, None, None, None, Some(3)),
        make_link(1, true, switch, bdf, None, None, None, None, None, Some(3)),
        make_link(2, false, RemoteDeviceType::Unknown, None, None, None, None, None, None, None),
    ];
    let (port, meta) = make_port("nvidia0", links, 0.0);
    let lines = build_nvlink_detail_lines(&port, &meta, None, false, 0);
    let header = line_text(&lines[0]);
    assert!(
        header.contains("Device: nvidia0"),
        "header missing device label: {header:?}"
    );
    assert!(
        header.contains("[NVLink]"),
        "header missing NVLink tag: {header:?}"
    );
    assert!(
        header.contains("2/3 active"),
        "header missing active/total count: {header:?}"
    );
    // No avg label when show_avg=false.
    assert!(
        !header.contains("[avg"),
        "avg label should be hidden: {header:?}"
    );
}

#[test]
fn inactive_link_renders_disabled_and_dash_remote() {
    let links = vec![make_link(
        0,
        false,
        RemoteDeviceType::Unknown,
        None,
        None,
        None,
        None,
        None,
        None,
        None,
    )];
    let (port, meta) = make_port("nvidia0", links, 0.0);
    let lines = build_nvlink_detail_lines(&port, &meta, None, false, 0);
    let blob = join_lines(&lines);
    assert!(blob.contains("disabled"), "missing 'disabled': {blob}");
    // Remote label column for Unknown remote with no BDF should be "-".
    // The row layout puts the remote label at the end; check it ends with "  -".
    let lane_row = lines
        .iter()
        .find(|l| line_text(l).contains("disabled"))
        .expect("lane row with disabled");
    let s = line_text(lane_row);
    assert!(
        s.trim_end().ends_with('-'),
        "inactive row should end with '-': {s:?}"
    );
}

#[test]
fn active_link_renders_remote_pci_bdf() {
    let links = vec![make_link(
        2,
        true,
        RemoteDeviceType::Switch,
        Some("0000:01:00.0"),
        None,
        None,
        None,
        None,
        None,
        Some(4),
    )];
    let (port, meta) = make_port("nvidia0", links, 0.0);
    let lines = build_nvlink_detail_lines(&port, &meta, None, false, 0);
    let blob = join_lines(&lines);
    assert!(
        blob.contains("NVSwitch 0000:01:00.0"),
        "active switch link missing remote label: {blob}"
    );
    assert!(
        blob.contains("enabled"),
        "active link row should be 'enabled': {blob}"
    );
}

#[test]
fn error_line_sums_counters_across_links() {
    let switch = RemoteDeviceType::Switch;
    let bdf = Some("0000:01:00.0");
    let links = vec![
        make_link(0, true, switch, bdf, None, None, Some(3), Some(5), Some(2), Some(4)),
        make_link(1, true, switch, bdf, None, None, Some(7), Some(11), Some(13), Some(4)),
        make_link(2, false, RemoteDeviceType::Unknown, None, None, None, None, None, None, None),
    ];
    let (port, meta) = make_port("nvidia0", links, 0.0);
    let lines = build_nvlink_detail_lines(&port, &meta, None, false, 0);
    let error_line = lines
        .iter()
        .map(line_text)
        .find(|l| l.contains("Errors:"))
        .expect("Errors line");
    // crc = 3 + 7 = 10 (link 2 contributes 0)
    assert!(
        error_line.contains("crc=10"),
        "crc sum wrong: {error_line:?}"
    );
    // replay = 5 + 11 = 16
    assert!(
        error_line.contains("replay=16"),
        "replay sum wrong: {error_line:?}"
    );
    // recovery = 2 + 13 = 15
    assert!(
        error_line.contains("recovery=15"),
        "recovery sum wrong: {error_line:?}"
    );
}

#[test]
fn rolling_average_label_appears_when_enabled() {
    let links = vec![make_link(
        0,
        true,
        RemoteDeviceType::Switch,
        Some("0000:01:00.0"),
        None,
        None,
        None,
        None,
        None,
        Some(4),
    )];
    let (port, meta) = make_port("nvidia0", links, 0.0);
    let lines = build_nvlink_detail_lines(&port, &meta, None, true, 5);
    let header = line_text(&lines[0]);
    assert!(
        header.contains("[avg 5s]"),
        "rolling avg label missing: {header:?}"
    );
}

#[test]
fn header_and_lanes_show_aggregate_rates() {
    // Two active links and one inactive link. The aggregate must appear
    // in the header (in Gbps) and be repeated identically in every lane
    // row (in MB/s) — NVML does not expose per-lane throughput.
    let switch = RemoteDeviceType::Switch;
    let links = vec![
        make_link(0, true, switch, Some("0000:01:00.0"), None, None, None, None, None, Some(3)),
        make_link(
            1,
            true,
            RemoteDeviceType::Gpu,
            Some("0000:02:00.0"),
            None,
            None,
            None,
            None,
            None,
            Some(3),
        ),
        make_link(2, false, RemoteDeviceType::Unknown, None, None, None, None, None, None, None),
    ];
    let (port, meta) = make_port("nvidia0", links.clone(), 1.0);
    assert_eq!(port.port_label.as_deref(), Some("2/3"));
    let lines = build_nvlink_detail_lines(&port, &meta, None, false, 0);

    // Header aggregate lines must contain the Gbps string.
    let tx_line = line_text(&lines[1]);
    let rx_line = line_text(&lines[2]);
    assert!(
        tx_line.contains("1.00 Gbps"),
        "TX header missing aggregate rate: {tx_line:?}"
    );
    assert!(
        rx_line.contains("1.00 Gbps"),
        "RX header missing aggregate rate: {rx_line:?}"
    );

    // Compute the expected MB/s value: gbps * 1000 / 8 = 125.0.
    let expected_mb_s = "125.0";

    // Muted note line must be present before the lane table.
    let blob = join_lines(&lines);
    assert!(
        blob.contains("Per-lane throughput is not available from NVML"),
        "missing muted note about per-lane throughput: {blob}"
    );

    // Each lane row must contain the aggregate MB/s value.
    for link in &links {
        let lane_row = lines
            .iter()
            .map(line_text)
            .find(|s| s.contains(&format!("{:>4}", link.link.link_id)))
            .unwrap_or_else(|| panic!("missing lane row for link {}", link.link.link_id));
        assert!(
            lane_row.contains(expected_mb_s),
            "lane {} row missing aggregate MB/s value {}: {:?}",
            link.link.link_id,
            expected_mb_s,
            lane_row
        );
    }

    // The MB/s value must appear in every lane row — that's three
    // occurrences total (one per link).
    let occurrences = lines
        .iter()
        .filter(|l| line_text(l).contains(expected_mb_s))
        .count();
    assert_eq!(
        occurrences, 3,
        "expected the aggregate MB/s value in 3 lane rows, got {occurrences}"
    );
}

#[test]
fn lanes_show_per_lane_rates_when_present() {
    let links = vec![
        make_link(
            0,
            true,
            RemoteDeviceType::Switch,
            Some("0000:01:00.0"),
            Some(10_000_000), // 10 MB/s
            Some(20_000_000), // 20 MB/s
            None,
            None,
            None,
            Some(3),
        ),
        make_link(
            1,
            true,
            RemoteDeviceType::Gpu,
            Some("0000:02:00.0"),
            Some(30_000_000), // 30 MB/s
            Some(40_000_000), // 40 MB/s
            None,
            None,
            None,
            Some(3),
        ),
    ];
    let (port, meta) = make_port("nvidia0", links, 1.0);
    assert_eq!(port.port_label.as_deref(), Some("2/2"));
    let lines = build_nvlink_detail_lines(&port, &meta, None, false, 0);

    // lane 0 row should contain "  10.0" and "  20.0"
    let lane0_row = lines
        .iter()
        .map(line_text)
        .find(|l| l.starts_with("    0 "))
        .unwrap();
    assert!(
        lane0_row.contains("  10.0"),
        "lane 0 missing TX: {lane0_row:?}"
    );
    assert!(
        lane0_row.contains("  20.0"),
        "lane 0 missing RX: {lane0_row:?}"
    );

    // lane 1 row should contain "  30.0" and "  40.0"
    let lane1_row = lines
        .iter()
        .map(line_text)
        .find(|l| l.starts_with("    1 "))
        .unwrap();
    assert!(
        lane1_row.contains("  30.0"),
        "lane 1 missing TX: {lane1_row:?}"
    );
    assert!(
        lane1_row.contains("  40.0"),
        "lane 1 missing RX: {lane1_row:?}"
    );
}

fn mk_link(id: u32, active: bool, tx_rate: u64, rx_rate: u64) -> XgmiLinkRate {
    XgmiLinkRate {
        link: XgmiLinkSnapshot {
            link_id: id,
            is_active: active,
            speed_mbps: Some(512_000),
            bit_rate_mbps: Some(32_000),
            remote_pci_bdf: Some(format!("0000:{:02x}:00.0", 0x15 + id)),
            tx_bytes: Some(tx_rate),
            rx_bytes: Some(rx_rate),
        },
        tx_rate: Some(Rate { delta: tx_rate, elapsed_ns: SECOND_NS }),
        rx_rate: Some(Rate { delta: rx_rate, elapsed_ns: SECOND_NS }),
    }
}

fn counter(name: &str, value: u64, delta: u64) -> CounterRate {
    CounterRate {
        name: name.to_string(),
        value,
        delta,
        rate: Mean::of(delta, SECOND_NS),
        is_bytes: name.ends_with("_bytes"),
    }
}

fn mk_row(links: Vec<XgmiLinkRate>) -> (PortThroughput, XgmiThroughputMeta) {
    let active = links.iter().filter(|l| l.link.is_active).count() as u32;
    let meta = XgmiThroughputMeta {
        gpu_index: 0,
        gpu_name: "MI325X".to_string(),
        active_links: active,
        links,
        metrics: None,
    };
    let mut port = row("amdgpu0", active, DeviceClass::Xgmi, 1.0, 2.0);
    port.counter_rates = vec![counter("xgmi_wafl_ce", 7, 0), counter("xgmi_wafl_ue", 1, 0)];
    port.port_label = Some(format!("{}/{}", active, meta.links.len()));
    port.xgmi = Some(meta.clone());
    (port, meta)
}

#[test]
fn header_shows_device_and_active_links() {
    let (port, meta) = mk_row(vec![mk_link(0, true, 0, 0), mk_link(1, false, 0, 0)]);
    let lines = build_xgmi_detail_lines(&port, &meta, None, false, 0);
    let header = line_text(&lines[0]);
    assert!(header.contains("amdgpu0"), "header: {header:?}");
    assert!(header.contains("[XGMI]"), "header: {header:?}");
    assert!(header.contains("1/2 active"), "header: {header:?}");
}

#[test]
fn per_link_rows_show_rate_and_remote() {
    // 2_000_000 B/s -> 2.0 MB/s
    let (port, meta) = mk_row(vec![mk_link(0, true, 2_000_000, 4_000_000)]);
    let lines = build_xgmi_detail_lines(&port, &meta, None, false, 0);
    let text: Vec<String> = lines.iter().map(line_text).collect();
    let row = text
        .iter()
        .find(|l| l.contains("0000:15:00.0"))
        .expect("link row");
    assert!(row.contains("up"), "row: {row:?}");
    assert!(row.contains("2.0"), "row: {row:?}");
    assert!(row.contains("4.0"), "row: {row:?}");
    assert_eq!(row, "    0  up       512      2.0      4.0  GPU 0000:15:00.0");
}

#[test]
fn link_without_counters_shows_dashes() {
    let mut bare = mk_link(0, true, 0, 0);
    bare.link.tx_bytes = None;
    bare.link.rx_bytes = None;
    bare.tx_rate = None;
    bare.rx_rate = None;
    let mut half = mk_link(1, true, 0, 3_000_000);
    half.link.tx_bytes = None;
    half.tx_rate = None;
    let (port, meta) = mk_row(vec![bare, half]);
    let lines = build_xgmi_detail_lines(&port, &meta, None, false, 0);
    assert_eq!(
        line_text(&lines[5]),
        "    0  up       512        -        -  GPU 0000:15:00.0"
    );
    assert_eq!(
        line_text(&lines[6]),
        "    1  up       512        -      3.0  GPU 0000:16:00.0"
    );
}

#[test]
fn inactive_link_rendered_down() {
    let (port, meta) = mk_row(vec![mk_link(0, false, 0, 0)]);
    let lines = build_xgmi_detail_lines(&port, &meta, None, false, 0);
    let text: Vec<String> = lines.iter().map(line_text).collect();
    assert!(text.iter().any(|l| l.contains("down")), "lines: {text:?}");
}

#[test]
fn errors_line_shows_wafl_counts() {
    let (port, meta) = mk_row(vec![mk_link(0, true, 0, 0)]);
    let lines = build_xgmi_detail_lines(&port, &meta, None, false, 0);
    let text: Vec<String> = lines.iter().map(line_text).collect();
    let err = text
        .iter()
        .find(|l| l.contains("wafl_ce"))
        .expect("errors line");
    assert!(err.contains("wafl_ce=7"), "err: {err:?}");
    assert!(err.contains("wafl_ue=1"), "err: {err:?}");
}

fn sysinfo() -> SysInfo {
    SysInfo {
        hostname: "node1".to_string(),
        uptime: "up 1 days, 2:03".to_string(),
        load_avg: "0.1, 0.2, 0.3".to_string(),
        mem_total_mb: 2048,
        mem_used_mb: 1536,
        cpu: CpuUsage { busy: 30, total: 40 },
    }
}

fn app_with(names: &[&str]) -> App {
    let stat = |name: &&str, tx: u64| PortStat {
        dev_name: name.to_string(),
        port: 1,
        link_mbps: Some(100_000),
        state: None,
        counters: vec![
            HwCounter { name: "tx_bytes".to_string(), value: tx },
            HwCounter { name: "rx_drops".to_string(), value: tx / 1_000_000_000 },
        ],
    };
    let mut app = App::new(sysinfo(), 2);
    for (i, tx) in [0, 1_000_000_000].iter().enumerate() {
        let taken_at = (i as u64 + 1) * SEC;
        app.apply_snapshot(
            Snapshot {
                stats: Some(Sample { data: names.iter().map(|n| stat(n, *tx)).collect(), taken_at }),
                ifstats: None,
                nvlink: None,
                xgmi: None,
                processes: None,
                taken_at,
            },
            sysinfo(),
        );
    }
    app
}

#[test]
fn the_header_sums_what_is_shown() {
    let mut app = app_with(&["a", "b"]);
    assert_eq!(
        line_text(&header_line1(&app.sysinfo)),
        " rdmatop - node1 │ up 1 days, 2:03 │ load average: 0.1, 0.2, 0.3"
    );
    let line = header_line2(&app, "Dark");
    assert_eq!(
        line_text(&line),
        " RDMA: 2 devices │ TX: 16.00 Gbps │ RX: 0.00 Gbps │ Drops: 2/s \
         │ refresh: 1.0s │ theme: Dark"
    );
    assert!(matches!(line.spans[6].tone, Tone::Error));
    app.toggle_rolling_avg();
    app.decrease_refresh_interval();
    let text = line_text(&header_line2(&app, "Dark"));
    assert!(text.ends_with("│ refresh: 0.5s │ theme: Dark │ avg:5s(2/5)"), "{text}");
    let one = app_with(&["a"]);
    assert!(line_text(&header_line2(&one, "x")).starts_with(" RDMA: 1 device │"));
    let none = App::new(sysinfo(), 1);
    assert!(matches!(header_line2(&none, "x").spans[6].tone, Tone::Muted));
    let load = line_text(&header_line3(&none));
    assert!(load.starts_with(" CPU [fill20rest20 75.0%]  Mem [fill20rest201.5/2.0G]  Net ↓"), "{load}");
}

#[test]
fn cells_follow_their_columns() {
    let mut t = row("mlx5_0", 3, DeviceClass::Rdma, 1.5, 0.0);
    t.rx_drops = Mean::of(4, SEC);
    t.counter_rates = vec![counter("send_bytes", 9, 5), counter("send_wrs", 9, 0)];
    let cell = |col: TableColumn| span_text(&column_cell(&col, &t));
    assert_eq!(cell(TableColumn::Device), "mlx5_0");
    assert_eq!(cell(TableColumn::Port), "3");
    assert_eq!(cell(TableColumn::TxGbps), "1.50");
    assert_eq!(cell(TableColumn::RxGbps), "0.00");
    assert_eq!(cell(TableColumn::TxBar), "bar");
    assert_eq!(cell(TableColumn::Drops), "4");
    assert_eq!(cell(TableColumn::TxPps), "0pps");
    assert_eq!(cell(TableColumn::Counter("send_bytes".to_string())), "5B/s");
    assert_eq!(cell(TableColumn::Counter("send_wrs".to_string())), "0.0/s");
    assert_eq!(cell(TableColumn::Counter("none".to_string())), "0.0/s");
    let tone = |col: TableColumn| column_cell(&col, &t).tone;
    assert!(matches!(tone(TableColumn::Drops), Tone::Error));
    assert!(matches!(tone(TableColumn::Counter("send_bytes".to_string())), Tone::Fg));
    assert!(matches!(tone(TableColumn::Counter("send_wrs".to_string())), Tone::Muted));
    t.port_label = Some("2/3".to_string());
    assert_eq!(span_text(&column_cell(&TableColumn::Port, &t)), "2/3");
}

#[test]
fn the_table_shows_the_columns_that_fit() {
    let mut app = app_with(&["a", "b", "c"]);
    // 16 + 1 + 6 + 1 + 12 = 36 cells of 40 - 4.
    let plan = draw_table(&mut app, 40, 20);
    let labels: Vec<_> = plan.headings.iter().map(|h| h.label.as_str()).collect();
    assert_eq!(labels, vec!["Device", "Port", "TX"]);
    assert_eq!(plan.headings[0].width, 16);
    assert_eq!(plan.title, " RDMA Throughput ");
    assert_eq!(plan.rows.len(), 3);
    assert_eq!(plan.cursor, Some((0, 0)));
    assert_eq!(plan.v_scroll, None);
    assert_eq!(plan.h_scroll, Some((9, 0)));
    assert!(app.h_scroll_max > 0 && app.h_scroll_max < 9);
    // Everything fits on a wide screen: 93 cells and a separator for each.
    let wide = draw_table(&mut app, 200, 20);
    assert_eq!(wide.headings.len(), 9);
    assert_eq!(wide.h_scroll, None);
    assert_eq!(app.h_scroll_max, 0);
    // Scrolling is taken back when the screen grows.
    draw_table(&mut app, 40, 20);
    app.scroll_right();
    app.scroll_right();
    assert_eq!(app.h_scroll, 2);
    assert_eq!(draw_table(&mut app, 40, 20).headings[0].label, "TX");
    draw_table(&mut app, 200, 20);
    assert_eq!(app.h_scroll, 0);
    // Beside the detail pane the default columns are shown without scrollbars.
    app.toggle_detail();
    app.toggle_rolling_avg();
    let beside = draw_table(&mut app, 10, 4);
    assert_eq!(beside.headings.len(), default_columns().len());
    assert_eq!((beside.v_scroll, beside.h_scroll), (None, None));
    assert_eq!(beside.title, " RDMA Throughput (avg 5s) ");
}

#[test]
fn the_table_scrolls_with_the_cursor() {
    let names: Vec<String> = (0..10).map(|i| format!("d{i}")).collect();
    let names: Vec<&str> = names.iter().map(|s| s.as_str()).collect();
    let mut app = app_with(&names);
    for _ in 0..6 {
        app.move_down();
    }
    // Seven lines leave room for three rows.
    assert_eq!(draw_table(&mut app, 80, 7).cursor, Some((6, 4)));
    assert_eq!(draw_table(&mut app, 80, 7).v_scroll, Some((10, 6)));
    for _ in 0..3 {
        app.move_up();
    }
    assert_eq!(draw_table(&mut app, 80, 7).cursor, Some((3, 3)));
    // Without room nothing moves.
    app.move_up();
    assert_eq!(draw_table(&mut app, 80, 3).cursor, Some((2, 3)));
    let mut empty = App::new(sysinfo(), 1);
    assert_eq!(draw_table(&mut empty, 80, 7).cursor, None);
}

fn process(user: &str, cmdline: &str) -> ProcessRdmaInfo {
    ProcessRdmaInfo {
        pid: 4242,
        dev_name: "a".to_string(),
        qp_count: 12,
        user: user.to_string(),
        nice: -5,
        state: 'D',
        virt_kb: 3 * 1_048_576 / 2,
        res_kb: 2048,
        shr_kb: 512,
        mem_total_kb: 16_384,
        threads: 8,
        cmdline: cmdline.to_string(),
    }
}

#[test]
fn a_process_line_keeps_its_fields() {
    let line = process_line(&process("a-long-user", "python train.py"));
    assert_eq!(
        line_text(&line),
        "  4242    a-long-… -5 D     1.5G       2M   512K 12.5    12    8 python train.py"
    );
    assert!(matches!(line.spans[3].tone, Tone::Warning));
    let long = "x".repeat(41);
    let text = line_text(&process_line(&process("u", &long)));
    assert!(text.ends_with(&format!(" {}…", "x".repeat(39))), "{text}");
}

#[test]
fn text_is_cut_between_characters() {
    assert_eq!(truncate("abcd", 4), "abcd");
    assert_eq!(truncate("abcde", 4), "abc…");
    assert_eq!(truncate("éé", 4), "éé");
    assert!(can_truncate("aéé", 4));
    assert_eq!(truncate("aéé", 4), "aé…");
    // The cut would fall inside the second character.
    assert!(!can_truncate("éééé", 4));
    assert!(can_show_process(&process("root", "x")));
    assert!(!can_show_process(&process("root", &"é".repeat(30))));
    assert!(can_show_process(&process("root", &format!("a{}", "é".repeat(30)))));
}

#[test]
fn sizes_are_rounded_as_doubles_are() {
    let reference = |kb: u64| {
        if kb >= 1_048_576 {
            format!("{:.1}G", kb as f64 / 1_048_576.0)
        } else if kb >= 1024 {
            format!("{:.0}M", kb as f64 / 1024.0)
        } else {
            format!("{}K", kb)
        }
    };
    let mut cases: Vec<u64> = vec![0, 1, 1023, 1024, 1535, 1536, 1537, 2560, 1_048_575, 1_048_576];
    // Ties at both scales, and sizes that a double cannot hold exactly.
    cases.extend((1..60).map(|k| 1024 * k + 512));
    cases.extend((20..400).map(|k| 1_048_576 / 20 * k));
    cases.extend((0..40).map(|k| (1u64 << 53) + 52_428 * k + 1));
    cases.extend([u64::MAX, u64::MAX - 1, (1 << 63) + 1025, (1 << 60) + 65, 9_007_199_254_740_993]);
    for kb in cases {
        assert_eq!(fmt_mem_kb(kb), reference(kb), "{kb}");
    }
    assert_eq!(mem_label(512, 1000), "512/1000M]");
    for (used, total) in [(100, 1024), (1536, 2048), (51, 1_000_000), (77_777, 123_456)] {
        assert_eq!(
            mem_label(used, total),
            format!("{:.1}/{:.1}G]", used as f64 / 1024.0, total as f64 / 1024.0)
        );
    }
    assert_eq!(write_tenths(7), "0.7");
    assert_eq!(write_tenths(100), "10.0");
    assert_eq!(divide_half_even(5, 2), 2);
    assert_eq!(divide_half_even(7, 2), 4);
    assert_eq!(divide_half_even(8, 3), 3);
}

#[test]
fn counters_come_by_rate_then_value_then_name() {
    let mut t = row("a", 1, DeviceClass::Rdma, 0.0, 0.0);
    t.counter_rates = vec![
        counter("zero", 0, 0),
        counter("b_first", 5, 0),
        counter("a_first", 5, 0),
        counter("big", 50, 0),
        counter("fast", 1, 9),
        counter("send_wrs", 0, 0),
    ];
    // Places by falling rate: only one counter has moved.
    let ranks = [1, 1, 1, 1, 0, 1];
    let mut lines = Vec::new();
    append_active_counters(&mut lines, &t, &ranks);
    let names: Vec<_> = lines
        .iter()
        .map(|l| line_text(l).split_whitespace().next().unwrap_or("").to_string())
        .collect();
    assert_eq!(names, vec!["fast", "big", "a_first", "b_first", "send_wrs", ""]);
    assert_eq!(
        line_text(&lines[0]),
        format!("  {:<35}{:>12}  Δ 9", "fast", "9.0/s")
    );
    let mut none = Vec::new();
    append_active_counters(&mut none, &row("a", 1, DeviceClass::Rdma, 0.0, 0.0), &[]);
    assert!(none.is_empty());
}

#[test]
fn counters_are_coloured_by_name_once_they_move() {
    assert!(matches!(counter_color(&counter("rx_err", 5, 0)), Tone::Muted));
    assert!(matches!(counter_color(&counter("rx_err", 5, 1)), Tone::Error));
    assert!(matches!(counter_color(&counter("rx_drops", 5, 1)), Tone::Error));
    assert!(matches!(counter_color(&counter("retrans_pkts", 5, 1)), Tone::Warning));
    assert!(matches!(counter_color(&counter("unresponsive_remote_events", 5, 1)), Tone::Warning));
    assert!(matches!(counter_color(&counter("impaired_remote_conn_events", 5, 1)), Tone::Warning));
    assert!(matches!(counter_color(&counter("retrans_err", 5, 1)), Tone::Error));
    assert!(matches!(counter_color(&counter("tx_pkts", 5, 1)), Tone::Good));
}

#[test]
fn the_detail_pane_follows_the_selected_row() {
    let mut app = app_with(&["a", "b"]);
    let ranks = [0, 1];
    let plan = draw_detail(&mut app, 8, &ranks).unwrap();
    assert_eq!(plan.title, " a ");
    let text: Vec<_> = plan.lines.iter().map(line_text).collect();
    assert_eq!(text[0], " Device: a/1");
    assert_eq!(text[1], " TX: 8.00 Gbps spark 2 of 30");
    assert_eq!(text[3], "");
    assert!(text[4].contains("tx_bytes") && text[5].contains("rx_drops"));
    assert!(text[7].starts_with("  PID     USER"));
    assert_eq!(text[8], "  (no RDMA processes)");
    assert_eq!(text.len(), 9);
    // Six lines are visible of the nine.
    assert_eq!(app.detail_max_scroll, 3);
    app.toggle_rolling_avg();
    assert_eq!(draw_detail(&mut app, 80, &ranks).unwrap().title, " a (avg 5s) ");
    assert_eq!(app.detail_max_scroll, 0);
    let mut empty = App::new(sysinfo(), 1);
    assert!(draw_detail(&mut empty, 8, &[]).is_none());
}

#[test]
fn gpu_panes_take_any_process() {
    // A user name that would be cut inside a character.
    let odd = process("123456é89", "run");
    assert!(!can_show_process(&odd));
    let (nv, _) = make_port("nvidia0", Vec::new(), 0.0);
    let (amd, _) = mk_row(Vec::new());
    for t in [nv, amd] {
        let procs = [process("123456é89", "run")];
        let lines = build_selected_detail_lines(&t, &procs, None, false, 0, &[]);
        assert!(!join_lines(&lines).contains("PID"));
    }
}

#[test]
fn each_kind_of_row_has_its_pane() {
    let (nv, _) = make_port("nvidia0", Vec::new(), 0.0);
    let (amd, _) = mk_row(Vec::new());
    let first = |t: &PortThroughput, ranks: &[usize]| {
        line_text(&build_selected_detail_lines(t, &[], None, false, 0, ranks)[0])
    };
    assert!(first(&nv, &[]).contains("[NVLink]"));
    assert!(first(&amd, &[0, 0]).contains("[XGMI]"));
    assert_eq!(first(&row("m", 2, DeviceClass::Rdma, 0.0, 0.0), &[]), " Device: m/2");
}

#[test]
fn the_status_bar_names_the_keys_and_the_recording() {
    let mut app = app_with(&["a"]);
    let text = line_text(&draw_status_bar(&app, 0));
    assert_eq!(
        text,
        " NORMAL  ↑↓/jk:nav  Enter:detail  t:theme  <>:refresh  r:rec  h:help  q:quit\
         \u{20} a:avg  w:set"
    );
    app.toggle_detail();
    app.toggle_rolling_avg();
    let text = line_text(&draw_status_bar(&app, 0));
    assert!(text.contains("Enter/Esc:close"), "{text}");
    assert!(text.ends_with("  a:avg[ON 5s]  +/-:window  w:set"), "{text}");
    app.toggle_recording(SEC, 0);
    let line = draw_status_bar(&app, 66 * SEC);
    assert_eq!(span_text(&line.spans[1]), " ● REC 1:05 (0) ");
    assert!(matches!(line.spans[1].tone, Tone::Recording));
    app.toggle_recording(SEC, 0);
    let line = draw_status_bar(&app, 66 * SEC);
    assert_eq!(span_text(&line.spans[1]), " recording stopped (nothing captured) ");
}

#[test]
fn popups_have_their_lines_and_sizes() {
    let help = draw_help_popup();
    assert_eq!(help.len(), 21);
    assert_eq!(line_text(&help[0]), format!("  {:<14}Move up", "↑ / k"));
    assert_eq!(line_text(&help[16]), "  ── Detail mode ──");
    assert!(matches!(help[16].spans[0].tone, Tone::GroupTitle));
    let mut app = app_with(&["a"]);
    app.open_window_input();
    let window = draw_window_input_popup(&app);
    assert_eq!(line_text(&window[0]), " Window (1-300s): 5▏");
    assert_eq!(line_text(&window[1]), " Enter:confirm  Esc:cancel");
    app.cancel_window_input();
    app.open_column_picker();
    app.column_picker_down();
    let picker = draw_column_picker(&app);
    assert_eq!(picker.len(), all_columns().len());
    assert_eq!(line_text(&picker[0]), "   [x] Device");
    assert_eq!(line_text(&picker[1]), " ▶ [x] Port");
    assert!(picker[1].spans[0].bold);
    assert_eq!(line_text(&picker[9]), "   [ ] send_bytes");
    assert_eq!(picker_size(), (45, 30));
}

#[test]
fn popups_are_centred_on_the_screen() {
    let screen = Area { x: 2, y: 1, width: 100, height: 41 };
    assert_eq!(centered_rect(screen, 50, 18), Area { x: 27, y: 12, width: 50, height: 18 });
    assert_eq!(centered_rect(screen, 200, 200), Area { x: 2, y: 1, width: 200, height: 200 });
    assert_eq!(popup_rect(screen, 50, 18), Area { x: 27, y: 12, width: 50, height: 18 });
    let small = Area { x: 0, y: 0, width: 20, height: 3 };
    assert_eq!(popup_rect(small, 50, 18), Area { x: 2, y: 1, width: 16, height: 0 });
}
