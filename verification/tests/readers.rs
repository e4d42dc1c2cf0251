//! GPU link readers: what the drivers answered, turned into snapshots.

use nvml_wrapper::enum_wrappers::nv_link::IntDeviceType;
use rdmatop::gpu::GpuMetrics;
use rdmatop::nvlink::{
    has_speed_field, read_all_nvlink_stats, read_device_snapshot, read_link_count,
    read_link_throughput, DeviceReading, FieldReading, LinkReading, LinkSnapshot, NvLinkSnapshot,
    RemoteDeviceType, ThroughputReading, LINK_SPEED_FIELDS, NVML_NVLINK_MAX_LINKS,
    NVML_VALUE_TYPE_UNSIGNED_LONG_LONG,
};
use rdmatop::xgmi::{
    enumerate_gpus, format_bdf, is_xgmi_peer, name_of, read_all_xgmi_stats, read_gpu_name,
    read_link_speed, read_processor_snapshot, read_wafl_errors, ErrorCount, GpuReading,
    LinkMetrics, LinkMetricsEntry, Listing, PcieInfo, TopoReading, XgmiLinkSnapshot, XgmiSnapshot,
    AMDSMI_IOLINK_TYPE_XGMI,
};

#[test]
fn remote_device_type_label() {
    assert_eq!(RemoteDeviceType::Gpu.label(), "GPU");
    assert_eq!(RemoteDeviceType::IbmNpu.label(), "NPU");
    assert_eq!(RemoteDeviceType::Switch.label(), "NVSwitch");
    assert_eq!(RemoteDeviceType::Unknown.label(), "?");
}

#[test]
fn remote_device_type_from_int_device_type() {
    assert_eq!(
        RemoteDeviceType::from_code(IntDeviceType::Gpu.as_c()),
        RemoteDeviceType::Gpu
    );
    assert_eq!(
        RemoteDeviceType::from_code(IntDeviceType::Ibmnpu.as_c()),
        RemoteDeviceType::IbmNpu
    );
    assert_eq!(
        RemoteDeviceType::from_code(IntDeviceType::Switch.as_c()),
        RemoteDeviceType::Switch
    );
    assert_eq!(
        RemoteDeviceType::from_code(IntDeviceType::Unknown.as_c()),
        RemoteDeviceType::Unknown
    );
}

fn lane(link_id: u32, is_active: bool, remote_device_type: RemoteDeviceType) -> LinkSnapshot {
    LinkSnapshot {
        link_id,
        is_active,
        version: None,
        speed_mbps: None,
        remote_device_type,
        remote_pci_bdf: None,
        tx_bytes: None,
        rx_bytes: None,
        crc_error_count: None,
        replay_error_count: None,
        recovery_error_count: None,
    }
}

#[test]
fn nvlink_active_links_counts_active_only() {
    let snap = NvLinkSnapshot {
        gpu_index: 0,
        gpu_name: "test".to_string(),
        metrics: None,
        link_count: 4,
        link_mbps: None,
        tx_bytes: None,
        rx_bytes: None,
        links: vec![
            lane(0, true, RemoteDeviceType::Gpu),
            lane(1, false, RemoteDeviceType::Unknown),
            lane(2, true, RemoteDeviceType::Switch),
        ],
    };
    assert_eq!(snap.active_links(), 2);
}

#[test]
fn nvlink_active_links_no_links() {
    let snap = NvLinkSnapshot {
        gpu_index: 0,
        gpu_name: "test".to_string(),
        metrics: None,
        link_count: 0,
        link_mbps: None,
        tx_bytes: None,
        rx_bytes: None,
        links: Vec::new(),
    };
    assert_eq!(snap.active_links(), 0);
}

fn link(id: u32, active: bool) -> XgmiLinkSnapshot {
    XgmiLinkSnapshot {
        link_id: id,
        is_active: active,
        speed_mbps: None,
        bit_rate_mbps: None,
        remote_pci_bdf: None,
        tx_bytes: None,
        rx_bytes: None,
    }
}

#[test]
fn xgmi_active_links_counts_active_only() {
    let snap = XgmiSnapshot {
        gpu_index: 0,
        gpu_name: "test".to_string(),
        metrics: None,
        link_count: 3,
        link_mbps: None,
        correctable_errors: None,
        uncorrectable_errors: None,
        links: vec![link(0, true), link(1, false), link(2, true)],
    };
    assert_eq!(snap.active_links(), 2);
}

#[test]
fn xgmi_active_links_no_links() {
    let snap = XgmiSnapshot {
        gpu_index: 0,
        gpu_name: "test".to_string(),
        metrics: None,
        link_count: 0,
        link_mbps: None,
        correctable_errors: None,
        uncorrectable_errors: None,
        links: Vec::new(),
    };
    assert_eq!(snap.active_links(), 0);
}

#[test]
fn format_bdf_matches_lspci_form() {
    // 0000:05:00.0 -> domain 0, bus 5, device 0, function 0
    assert_eq!(format_bdf(0x0000_0000_0000_0500), "0000:05:00.0");
    // 0000:f5:00.0 (amd1 GPU7)
    assert_eq!(format_bdf(0x0000_0000_0000_f500), "0000:f5:00.0");
    // function/device bits: bus 0x65, device 0x1f, function 7
    // bdf = domain<<16 | bus<<8 | device<<3 | function
    assert_eq!(format_bdf((0x65 << 8) | (0x1f << 3) | 0x7), "0000:65:1f.7");
}

#[test]
fn constants_are_those_of_the_driver() {
    assert_eq!(
        NVML_NVLINK_MAX_LINKS,
        nvml_wrapper_sys::bindings::NVML_NVLINK_MAX_LINKS
    );
    assert_eq!(
        NVML_VALUE_TYPE_UNSIGNED_LONG_LONG,
        nvml_wrapper_sys::bindings::nvmlValueType_enum_NVML_VALUE_TYPE_UNSIGNED_LONG_LONG
    );
    assert_eq!(LINK_SPEED_FIELDS, 12);
}

fn field(value: u64) -> FieldReading {
    FieldReading { nvml_return: 0, value_type: NVML_VALUE_TYPE_UNSIGNED_LONG_LONG, value }
}

fn throughput(rc: u32, tx: u64, rx: u64) -> ThroughputReading {
    ThroughputReading { rc, tx: field(tx), rx: field(rx) }
}

#[test]
fn throughput_fields_are_kilobytes() {
    assert_eq!(read_link_throughput(&throughput(0, 3, 5)), (Some(3072), Some(5120)));
    assert_eq!(read_link_throughput(&throughput(1, 3, 5)), (None, None));
    let mut failed = throughput(0, 3, 5);
    failed.tx.nvml_return = 3;
    assert_eq!(read_link_throughput(&failed), (None, Some(5120)));
    let mut typed = throughput(0, 3, 5);
    typed.rx.value_type = 1;
    assert_eq!(read_link_throughput(&typed), (Some(3072), None));
    // The product is kept to 64 bits.
    assert_eq!(
        read_link_throughput(&throughput(0, u64::MAX, 0)),
        (Some(u64::MAX.wrapping_mul(1024)), Some(0))
    );
}

#[test]
fn link_count_falls_back_to_the_maximum() {
    assert_eq!(read_link_count(Some(4)), 4);
    assert_eq!(read_link_count(Some(0)), 0);
    assert_eq!(read_link_count(None), 18);
    assert!(has_speed_field(0) && has_speed_field(11));
    assert!(!has_speed_field(12));
}

fn lane_reading(active: Option<bool>, speed: Option<u32>) -> LinkReading {
    LinkReading {
        is_active: active,
        version: Some(4),
        remote_device_type: Some(RemoteDeviceType::Switch),
        remote_pci_bdf: Some("0000:01:00.0".to_string()),
        crc_error_count: Some(1),
        replay_error_count: Some(2),
        recovery_error_count: None,
        throughput: throughput(0, 1, 2),
        speed_mbps: speed,
    }
}

fn device(links: Vec<LinkReading>, common: Option<u32>) -> DeviceReading {
    DeviceReading {
        name: Some("H100".to_string()),
        metrics: Some(GpuMetrics { util_pct: Some(7), ..Default::default() }),
        link_count: Some(links.len() as u32),
        common_speed_mbps: common,
        links,
        throughput: throughput(0, 10, 20),
    }
}

#[test]
fn a_device_snapshot_adds_up_its_active_links() {
    let reading = device(
        vec![
            lane_reading(Some(true), Some(50_000)),
            lane_reading(Some(false), Some(50_000)),
            lane_reading(Some(true), None),
        ],
        Some(25_000),
    );
    let snap = read_device_snapshot(3, &reading);
    assert_eq!(snap.gpu_index, 3);
    assert_eq!(snap.gpu_name, "H100");
    assert_eq!(snap.metrics.unwrap().util_pct, Some(7));
    assert_eq!(snap.links.len(), 3);
    assert_eq!(snap.active_links(), 2);
    assert_eq!((snap.tx_bytes, snap.rx_bytes), (Some(10_240), Some(20_480)));
    let total: u64 = snap
        .links
        .iter()
        .filter(|l| l.is_active)
        .map(|l| l.speed_mbps.unwrap_or(0))
        .sum();
    assert_eq!(snap.link_mbps, if total > 0 { Some(total) } else { None });
    assert_eq!(snap.links[0].speed_mbps, Some(50_000));
    assert_eq!(snap.links[0].remote_pci_bdf.as_deref(), Some("0000:01:00.0"));
}

#[test]
fn a_device_that_cannot_be_opened_is_left_out() {
    let readings = vec![
        None,
        Some(device(vec![lane_reading(Some(true), Some(50_000))], None)),
    ];
    let all = read_all_nvlink_stats(&readings);
    assert_eq!(all.len(), 1);
    assert_eq!(all[0].gpu_index, 1);
}

#[test]
fn names_end_at_their_terminator() {
    let mut buffer = vec![0u8; 256];
    buffer[..6].copy_from_slice(b"MI325X");
    assert_eq!(read_gpu_name(0, &buffer).as_deref(), Some("MI325X"));
    assert_eq!(read_gpu_name(1, &buffer), None);
    assert_eq!(read_gpu_name(0, &[0u8; 256]), None);
    // Bytes that are no UTF-8 are replaced, not dropped.
    buffer[1] = 0xff;
    assert_eq!(read_gpu_name(0, &buffer).as_deref(), Some("M\u{fffd}325X"));
    assert_eq!(name_of(""), None);
    assert_eq!(name_of("x").as_deref(), Some("x"));
}

#[test]
fn link_speed_is_bit_rate_times_width() {
    let info = PcieInfo { max_pcie_width: 16, max_pcie_speed: 32_000 };
    assert_eq!(read_link_speed(0, &info), (Some(32_000), Some(512_000)));
    // Below a thousand the speed is in Gb/s already.
    let old = PcieInfo { max_pcie_width: 2, max_pcie_speed: 16 };
    assert_eq!(read_link_speed(0, &old), (Some(16_000), Some(32_000)));
    let none = PcieInfo { max_pcie_width: 16, max_pcie_speed: 0 };
    assert_eq!(read_link_speed(0, &none), (None, None));
    assert_eq!(read_link_speed(1, &info), (None, None));
}

fn listing(count: u32, listed: u32, handles: &[usize]) -> Listing {
    Listing { count_rc: 0, count, list_rc: 0, listed, handles: handles.to_vec() }
}

#[test]
fn a_listing_gives_what_it_claims() {
    assert_eq!(listing(3, 3, &[7, 8, 9]).read_handles(), [7, 8, 9]);
    assert_eq!(listing(3, 2, &[7, 8, 9]).read_handles(), [7, 8]);
    assert_eq!(listing(3, 5, &[7, 8, 9]).read_handles(), [7, 8, 9]);
    assert!(listing(1, 1, &[7]).asks_handles());
    assert!(!listing(0, 0, &[]).asks_handles());
}

#[test]
fn gpus_follow_each_other_socket_by_socket() {
    let failed_count = Listing { count_rc: 1, ..listing(1, 1, &[5]) };
    let failed_list = Listing { list_rc: 1, ..listing(1, 1, &[6]) };
    assert!(!failed_count.asks_handles());
    let sockets = [
        listing(2, 2, &[1, 2]),
        failed_count,
        failed_list,
        listing(0, 0, &[]),
        listing(1, 1, &[3]),
    ];
    assert_eq!(enumerate_gpus(&sockets), [1, 2, 3]);
    assert!(enumerate_gpus(&[]).is_empty());
}

#[test]
fn wafl_errors_need_a_successful_call() {
    let ec = ErrorCount { correctable_count: 5, uncorrectable_count: 2, deferred_count: 9 };
    assert_eq!(read_wafl_errors(0, &ec), (Some(5), Some(2)));
    assert_eq!(read_wafl_errors(2, &ec), (None, None));
}

#[test]
fn only_xgmi_peers_count() {
    assert!(is_xgmi_peer(&TopoReading { rc: 0, link_type: AMDSMI_IOLINK_TYPE_XGMI }));
    assert!(!is_xgmi_peer(&TopoReading { rc: 1, link_type: AMDSMI_IOLINK_TYPE_XGMI }));
    assert!(!is_xgmi_peer(&TopoReading { rc: 0, link_type: 1 }));
}

fn entry(bdf: u64, write_kb: u64, read_kb: u64) -> LinkMetricsEntry {
    LinkMetricsEntry {
        bdf,
        bit_rate: 32,
        max_bandwidth: 512,
        link_type: AMDSMI_IOLINK_TYPE_XGMI,
        read_kb,
        write_kb,
    }
}

fn gpu(bdf: u64, links: Option<LinkMetrics>, peers: Vec<TopoReading>) -> GpuReading {
    GpuReading {
        link_metrics: links,
        bdf: Some(bdf),
        name: Some("MI325X".to_string()),
        metrics: None,
        bit_rate_mbps: Some(32_000),
        bandwidth_mbps: Some(512_000),
        correctable_errors: Some(1),
        uncorrectable_errors: Some(0),
        peers,
    }
}

fn xgmi() -> TopoReading {
    TopoReading { rc: 0, link_type: AMDSMI_IOLINK_TYPE_XGMI }
}

#[test]
fn a_gpu_has_one_link_for_each_other_gpu() {
    let gpus = vec![
        gpu(
            0x500,
            Some(LinkMetrics { num_links: 2, links: vec![entry(0x500, 0, 0), entry(0x600, 3, 4)] }),
            vec![xgmi(), xgmi()],
        ),
        gpu(0x600, None, vec![xgmi(), xgmi()]),
    ];
    let snap = read_processor_snapshot(&gpus, 0).unwrap();
    assert_eq!(snap.gpu_index, 0);
    assert_eq!(snap.gpu_name, "MI325X");
    assert_eq!(snap.link_count, 1);
    assert_eq!(snap.links.len(), 1);
    assert_eq!(snap.links[0].link_id, 1);
    assert_eq!(snap.links[0].remote_pci_bdf.as_deref(), Some("0000:06:00.0"));
    assert_eq!(snap.link_mbps, Some(512_000));
    assert_eq!(snap.correctable_errors, Some(1));
    // The link metrics of the other GPU were not read.
    assert!(read_processor_snapshot(&gpus, 1).is_none());
    assert_eq!(read_all_xgmi_stats(&gpus).len(), 1);
}
