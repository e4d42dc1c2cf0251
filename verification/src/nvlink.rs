//! NVLink snapshots out of what the NVIDIA Management Library (NVML) reports.
//!
//! Speeds are kept in Mb/s, the unit that NVML reports.

use vstd::prelude::*;

use crate::gpu::GpuMetrics;
use crate::lists;
use crate::text;

verus! {

/// The number of links taken when the driver does not tell it.
pub const NVML_NVLINK_MAX_LINKS: u32 = 18;

/// The value type of a 64-bit unsigned field.
pub const NVML_VALUE_TYPE_UNSIGNED_LONG_LONG: u32 = 3;

/// The links that have a speed field of their own.
pub const LINK_SPEED_FIELDS: u32 = 12;

/// Logical classification of the device on the other end of an NVLink.
#[derive(Clone, Copy, Debug, PartialEq, Eq, Structural)]
pub enum RemoteDeviceType {
    Gpu,
    IbmNpu,
    Switch,
    Unknown,
}

impl RemoteDeviceType {
    /// The text of a classification.
    pub open spec fn text(self) -> Seq<char> {
        match self {
            RemoteDeviceType::Gpu => "GPU"@,
            RemoteDeviceType::IbmNpu => "NPU"@,
            RemoteDeviceType::Switch => "NVSwitch"@,
            RemoteDeviceType::Unknown => "?"@,
        }
    }

    /// Short, human-readable label used by the TUI.
    pub fn label(&self) -> (r: &'static str)
        ensures
            r@ == self.text(),
    {
        match self {
            RemoteDeviceType::Gpu => "GPU",
            RemoteDeviceType::IbmNpu => "NPU",
            RemoteDeviceType::Switch => "NVSwitch",
            RemoteDeviceType::Unknown => "?",
        }
    }

    /// The classification that NVML gives as a number.
    pub fn from_code(code: u32) -> (r: Self)
        ensures
            r == (match code {
                0 => RemoteDeviceType::Gpu,
                1 => RemoteDeviceType::IbmNpu,
                2 => RemoteDeviceType::Switch,
                _ => RemoteDeviceType::Unknown,
            }),
    {
        if code == 0 {
            RemoteDeviceType::Gpu
        } else if code == 1 {
            RemoteDeviceType::IbmNpu
        } else if code == 2 {
            RemoteDeviceType::Switch
        } else {
            RemoteDeviceType::Unknown
        }
    }
}

/// Snapshot of a single NVLink's state at one sample.
#[derive(Debug)]
pub struct LinkSnapshot {
    pub link_id: u32,
    /// True if NVML reports the link as active (NVLink state enabled).
    pub is_active: bool,
    /// NVLink protocol version reported by the driver.
    pub version: Option<u32>,
    /// Negotiated per-link speed in Mb/s. `None` if unknown. Aggregated into
    /// `NvLinkSnapshot::link_mbps` for the GPU-wide total.
    pub speed_mbps: Option<u64>,
    pub remote_device_type: RemoteDeviceType,
    /// BDF of the remote PCI device, if NVML reports one.
    pub remote_pci_bdf: Option<String>,
    pub tx_bytes: Option<u64>,
    pub rx_bytes: Option<u64>,
    pub crc_error_count: Option<u64>,
    pub replay_error_count: Option<u64>,
    pub recovery_error_count: Option<u64>,
}

/// What a link snapshot holds.
pub struct LinkSnapshotView {
    pub link_id: u32,
    pub is_active: bool,
    pub version: Option<u32>,
    pub speed_mbps: Option<u64>,
    pub remote_device_type: RemoteDeviceType,
    pub remote_pci_bdf: Option<Seq<char>>,
    pub tx_bytes: Option<u64>,
    pub rx_bytes: Option<u64>,
    pub crc_error_count: Option<u64>,
    pub replay_error_count: Option<u64>,
    pub recovery_error_count: Option<u64>,
}

impl View for LinkSnapshot {
    type V = LinkSnapshotView;

    open spec fn view(&self) -> LinkSnapshotView {
        LinkSnapshotView {
            link_id: self.link_id,
            is_active: self.is_active,
            version: self.version,
            speed_mbps: self.speed_mbps,
            remote_device_type: self.remote_device_type,
            remote_pci_bdf: lists::opt_text(self.remote_pci_bdf),
            tx_bytes: self.tx_bytes,
            rx_bytes: self.rx_bytes,
            crc_error_count: self.crc_error_count,
            replay_error_count: self.replay_error_count,
            recovery_error_count: self.recovery_error_count,
        }
    }
}

impl Clone for LinkSnapshot {
    fn clone(&self) -> (r: Self)
        ensures
            r@ == self@,
    {
        LinkSnapshot {
            link_id: self.link_id,
            is_active: self.is_active,
            version: self.version,
            speed_mbps: self.speed_mbps,
            remote_device_type: self.remote_device_type,
            remote_pci_bdf: lists::copy_text(&self.remote_pci_bdf),
            tx_bytes: self.tx_bytes,
            rx_bytes: self.rx_bytes,
            crc_error_count: self.crc_error_count,
            replay_error_count: self.replay_error_count,
            recovery_error_count: self.recovery_error_count,
        }
    }
}

/// Snapshot of every NVLink attached to one GPU.
#[derive(Debug)]
pub struct NvLinkSnapshot {
    pub gpu_index: u32,
    pub gpu_name: String,
    /// Live GPU health, where it was read.
    pub metrics: Option<GpuMetrics>,
    /// Total number of NVLink ports exposed by the GPU (active + inactive).
    pub link_count: u32,
    /// Negotiated aggregate speed in Mb/s: the sum over the active links.
    pub link_mbps: Option<u64>,
    pub tx_bytes: Option<u64>,
    pub rx_bytes: Option<u64>,
    pub links: Vec<LinkSnapshot>,
}

/// What the snapshot of a GPU holds.
#[verifier::ext_equal]
pub struct NvLinkSnapshotView {
    pub gpu_index: u32,
    pub gpu_name: Seq<char>,
    pub metrics: Option<GpuMetrics>,
    pub link_count: u32,
    pub link_mbps: Option<u64>,
    pub tx_bytes: Option<u64>,
    pub rx_bytes: Option<u64>,
    pub links: Seq<LinkSnapshotView>,
}

impl View for NvLinkSnapshot {
    type V = NvLinkSnapshotView;

    open spec fn view(&self) -> NvLinkSnapshotView {
        NvLinkSnapshotView {
            gpu_index: self.gpu_index,
            gpu_name: self.gpu_name@,
            metrics: self.metrics,
            link_count: self.link_count,
            link_mbps: self.link_mbps,
            tx_bytes: self.tx_bytes,
            rx_bytes: self.rx_bytes,
            links: lists::views(self.links@),
        }
    }
}

impl Clone for NvLinkSnapshot {
    fn clone(&self) -> (r: Self)
        ensures
            r@ == self@,
    {
        let links = self.links.clone();
        assert(lists::views(links@) =~= lists::views(self.links@));
        NvLinkSnapshot {
            gpu_index: self.gpu_index,
            gpu_name: self.gpu_name.clone(),
            metrics: self.metrics,
            link_count: self.link_count,
            link_mbps: self.link_mbps,
            tx_bytes: self.tx_bytes,
            rx_bytes: self.rx_bytes,
            links,
        }
    }
}

/// The number of active links in a list.
pub open spec fn active_count(links: Seq<LinkSnapshotView>) -> nat
    decreases links.len(),
{
    if links.len() == 0 {
        0
    } else {
        active_count(links.drop_last()) + if links.last().is_active {
            1nat
        } else {
            0
        }
    }
}

impl NvLinkSnapshot {
    /// Count of links that NVML currently reports as active, in 32 bits.
    pub fn active_links(&self) -> (r: u32)
        ensures
            r == active_count(self@.links) % 0x1_0000_0000,
    {
        let ghost all = self@.links;
        let mut n: u64 = 0;
        let mut i: usize = 0;
        while i < self.links.len()
            invariant
                i <= self.links.len(),
                all == lists::views(self.links@),
                n == active_count(all.take(i as int)),
                n <= i,
            decreases self.links.len() - i,
        {
            proof {
                text::lemma_take_step(all, i as int);
                assert(all[i as int] == self.links@[i as int]@);
            }
            if self.links[i].is_active {
                n += 1;
            }
            i += 1;
        }
        assert(all.take(all.len() as int) =~= all);
        (n % 0x1_0000_0000) as u32
    }
}

/// One field as NVML returned it: its own return code, the type of its value
/// and the value as 64 bits.
#[derive(Clone, Copy, Debug, PartialEq, Eq, Structural)]
pub struct FieldReading {
    pub nvml_return: u32,
    pub value_type: u32,
    pub value: u64,
}

/// The bytes of a throughput field, which counts kilobytes.
pub open spec fn field_bytes(f: FieldReading) -> Option<u64> {
    if f.nvml_return == 0 && f.value_type == NVML_VALUE_TYPE_UNSIGNED_LONG_LONG {
        Some((f.value * 1024 % 0x1_0000_0000_0000_0000) as u64)
    } else {
        None
    }
}

/// A query of the transmit and receive fields: the return code of the call and
/// both fields.
#[derive(Clone, Copy, Debug, PartialEq, Eq, Structural)]
pub struct ThroughputReading {
    pub rc: u32,
    pub tx: FieldReading,
    pub rx: FieldReading,
}

/// Transmitted and received bytes of a query.
pub open spec fn throughput_bytes(t: ThroughputReading) -> (Option<u64>, Option<u64>) {
    if t.rc != 0 {
        (None, None)
    } else {
        (field_bytes(t.tx), field_bytes(t.rx))
    }
}

fn read_field_bytes(f: &FieldReading) -> (r: Option<u64>)
    ensures
        r == field_bytes(*f),
{
    if f.nvml_return == 0 && f.value_type == NVML_VALUE_TYPE_UNSIGNED_LONG_LONG {
        Some(f.value.wrapping_mul(1024))
    } else {
        None
    }
}

/// Evaluates a query of the transmit and receive fields.
///
/// NVML does not let these counters be scoped to a single link; the driver
/// reports the aggregate of the GPU whichever link was asked for.
pub fn read_link_throughput(t: &ThroughputReading) -> (r: (Option<u64>, Option<u64>))
    ensures
        r == throughput_bytes(*t),
{
    if t.rc != 0 {
        (None, None)
    } else {
        (read_field_bytes(&t.tx), read_field_bytes(&t.rx))
    }
}

/// Everything read of one link; `None` where a call failed.
#[derive(Debug)]
pub struct LinkReading {
    pub is_active: Option<bool>,
    pub version: Option<u32>,
    pub remote_device_type: Option<RemoteDeviceType>,
    pub remote_pci_bdf: Option<String>,
    pub crc_error_count: Option<u64>,
    pub replay_error_count: Option<u64>,
    pub recovery_error_count: Option<u64>,
    pub throughput: ThroughputReading,
    /// The link's own speed field, in Mb/s.
    pub speed_mbps: Option<u32>,
}

/// What was read of one link.
pub struct LinkReadingView {
    pub is_active: Option<bool>,
    pub version: Option<u32>,
    pub remote_device_type: Option<RemoteDeviceType>,
    pub remote_pci_bdf: Option<Seq<char>>,
    pub crc_error_count: Option<u64>,
    pub replay_error_count: Option<u64>,
    pub recovery_error_count: Option<u64>,
    pub throughput: ThroughputReading,
    pub speed_mbps: Option<u32>,
}

impl View for LinkReading {
    type V = LinkReadingView;

    open spec fn view(&self) -> LinkReadingView {
        LinkReadingView {
            is_active: self.is_active,
            version: self.version,
            remote_device_type: self.remote_device_type,
            remote_pci_bdf: lists::opt_text(self.remote_pci_bdf),
            crc_error_count: self.crc_error_count,
            replay_error_count: self.replay_error_count,
            recovery_error_count: self.recovery_error_count,
            throughput: self.throughput,
            speed_mbps: self.speed_mbps,
        }
    }
}

/// Everything read of one GPU. `links` holds one reading for each link, in
/// the order of the link numbers.
#[derive(Debug)]
pub struct DeviceReading {
    pub name: Option<String>,
    pub metrics: Option<GpuMetrics>,
    pub link_count: Option<u32>,
    /// The speed common to all links, in Mb/s.
    pub common_speed_mbps: Option<u32>,
    pub links: Vec<LinkReading>,
    /// The aggregate of the whole GPU.
    pub throughput: ThroughputReading,
}

/// What was read of one GPU.
#[verifier::ext_equal]
pub struct DeviceReadingView {
    pub name: Option<Seq<char>>,
    pub metrics: Option<GpuMetrics>,
    pub link_count: Option<u32>,
    pub common_speed_mbps: Option<u32>,
    pub links: Seq<LinkReadingView>,
    pub throughput: ThroughputReading,
}

impl View for DeviceReading {
    type V = DeviceReadingView;

    open spec fn view(&self) -> DeviceReadingView {
        DeviceReadingView {
            name: lists::opt_text(self.name),
            metrics: self.metrics,
            link_count: self.link_count,
            common_speed_mbps: self.common_speed_mbps,
            links: lists::views(self.links@),
            throughput: self.throughput,
        }
    }
}

/// The number of links of a GPU: what the driver reports, or the most there
/// can be.
pub open spec fn links_of(reported: Option<u32>) -> u32 {
    match reported {
        Some(n) => n,
        None => NVML_NVLINK_MAX_LINKS,
    }
}

/// The number of links to read of a GPU.
pub fn read_link_count(reported: Option<u32>) -> (r: u32)
    ensures
        r == links_of(reported),
{
    match reported {
        Some(n) => n,
        None => NVML_NVLINK_MAX_LINKS,
    }
}

/// Whether a link has a speed field of its own.
pub fn has_speed_field(link: u32) -> (r: bool)
    ensures
        r == (link < LINK_SPEED_FIELDS),
{
    link < LINK_SPEED_FIELDS
}

/// A speed field; zero means that the speed is not known.
pub open spec fn known_speed(mbps: Option<u32>) -> Option<u64> {
    match mbps {
        Some(v) => if v == 0 {
            None
        } else {
            Some(v as u64)
        },
        None => None,
    }
}

fn read_speed(mbps: Option<u32>) -> (r: Option<u64>)
    ensures
        r == known_speed(mbps),
{
    match mbps {
        Some(v) => if v == 0 {
            None
        } else {
            Some(v as u64)
        },
        None => None,
    }
}

/// The speed of a link: its own, or else the common one; an inactive link has
/// none.
pub open spec fn link_speed(own: Option<u32>, common: Option<u32>, active: bool) -> Option<u64> {
    if !active {
        None
    } else {
        match known_speed(own) {
            Some(v) => Some(v),
            None => known_speed(common),
        }
    }
}

/// The snapshot of one link.
pub open spec fn link_of(l: LinkReadingView, id: u32, common: Option<u32>) -> LinkSnapshotView {
    let active = l.is_active == Some(true);
    LinkSnapshotView {
        link_id: id,
        is_active: active,
        version: l.version,
        speed_mbps: link_speed(l.speed_mbps, common, active),
        remote_device_type: match l.remote_device_type {
            Some(t) => t,
            None => RemoteDeviceType::Unknown,
        },
        remote_pci_bdf: l.remote_pci_bdf,
        tx_bytes: throughput_bytes(l.throughput).0,
        rx_bytes: throughput_bytes(l.throughput).1,
        crc_error_count: l.crc_error_count,
        replay_error_count: l.replay_error_count,
        recovery_error_count: l.recovery_error_count,
    }
}

/// The snapshots of all links.
pub open spec fn links_in(links: Seq<LinkReadingView>, common: Option<u32>) -> Seq<
    LinkSnapshotView,
> {
    Seq::new(links.len(), |i: int| link_of(links[i], i as u32, common))
}

/// The sum of the speeds that are known.
pub open spec fn speed_sum(links: Seq<LinkSnapshotView>) -> nat
    decreases links.len(),
{
    if links.len() == 0 {
        0
    } else {
        speed_sum(links.drop_last()) + (match links.last().speed_mbps {
            Some(v) => v as nat,
            None => 0,
        })
    }
}

/// The snapshot of one GPU.
pub open spec fn snapshot_of(idx: u32, d: DeviceReadingView) -> NvLinkSnapshotView {
    let links = links_in(d.links, d.common_speed_mbps);
    NvLinkSnapshotView {
        gpu_index: idx,
        gpu_name: match d.name {
            Some(n) => n,
            None => seq![],
        },
        metrics: d.metrics,
        link_count: links_of(d.link_count),
        link_mbps: if speed_sum(links) > 0 {
            Some(speed_sum(links) as u64)
        } else {
            None
        },
        tx_bytes: throughput_bytes(d.throughput).0,
        rx_bytes: throughput_bytes(d.throughput).1,
        links,
    }
}

fn build_link(l: &LinkReading, id: u32, common: Option<u32>) -> (r: LinkSnapshot)
    ensures
        r@ == link_of(l@, id, common),
        match r.speed_mbps {
            Some(v) => v <= u32::MAX,
            None => true,
        },
{
    let is_active: bool = match l.is_active {
        Some(b) => b,
        None => false,
    };
    let speed_mbps: Option<u64> = if !is_active {
        None
    } else {
        match read_speed(l.speed_mbps) {
            Some(v) => Some(v),
            None => read_speed(common),
        }
    };
    let (tx_bytes, rx_bytes) = read_link_throughput(&l.throughput);
    LinkSnapshot {
        link_id: id,
        is_active,
        version: l.version,
        speed_mbps,
        remote_device_type: match l.remote_device_type {
            Some(t) => t,
            None => RemoteDeviceType::Unknown,
        },
        remote_pci_bdf: lists::copy_text(&l.remote_pci_bdf),
        tx_bytes,
        rx_bytes,
        crc_error_count: l.crc_error_count,
        replay_error_count: l.replay_error_count,
        recovery_error_count: l.recovery_error_count,
    }
}

/// Builds the snapshot of one GPU out of what was read of it.
pub fn read_device_snapshot(idx: u32, d: &DeviceReading) -> (r: NvLinkSnapshot)
    requires
        d.links@.len() == links_of(d.link_count),
    ensures
        r@ == snapshot_of(idx, d@),
{
    let link_count: u32 = read_link_count(d.link_count);
    let ghost goal = links_in(d@.links, d.common_speed_mbps);
    let mut total: u64 = 0;
    let mut links: Vec<LinkSnapshot> = Vec::new();
    let mut link_id: u32 = 0;
    assert(lists::views(links@) =~= goal.take(0));
    while link_id < link_count
        invariant
            link_id <= link_count,
            d.links@.len() == link_count,
            goal == links_in(d@.links, d.common_speed_mbps),
            lists::views(links@) == goal.take(link_id as int),
            total == speed_sum(goal.take(link_id as int)),
            total <= link_id * 0xffff_ffff,
        decreases link_count - link_id,
    {
        let link = build_link(&d.links[link_id as usize], link_id, d.common_speed_mbps);
        proof {
            text::lemma_take_step(goal, link_id as int);
            lists::lemma_views_push(links@, link);
            assert(d@.links[link_id as int] == d.links@[link_id as int]@);
            assert(goal[link_id as int] == link@);
            assert(link_id * 0xffff_ffff + 0xffff_ffff == (link_id + 1) * 0xffff_ffff);
            assert((link_id + 1) * 0xffff_ffff <= 0xffff_ffff * 0xffff_ffff);
        }
        if let Some(s) = link.speed_mbps {
            total = total + s;
        }
        links.push(link);
        link_id = link_id + 1;
    }
    assert(goal.take(goal.len() as int) =~= goal);
    let (tx_bytes, rx_bytes) = read_link_throughput(&d.throughput);
    NvLinkSnapshot {
        gpu_index: idx,
        gpu_name: match &d.name {
            Some(n) => n.clone(),
            None => String::new(),
        },
        metrics: d.metrics,
        link_count,
        link_mbps: if total > 0 {
            Some(total)
        } else {
            None
        },
        tx_bytes,
        rx_bytes,
        links,
    }
}

/// The contents of a list in which a device that could not be opened has no
/// reading.
pub open spec fn reading_views(v: Seq<Option<DeviceReading>>) -> Seq<Option<DeviceReadingView>> {
    Seq::new(v.len(), |i: int| lists::opt_view(v[i]))
}

/// The snapshots of all GPUs that could be opened, numbered by their place.
pub open spec fn snapshots_of(readings: Seq<Option<DeviceReadingView>>) -> Seq<NvLinkSnapshotView>
    decreases readings.len(),
{
    if readings.len() == 0 {
        seq![]
    } else {
        let before = snapshots_of(readings.drop_last());
        match readings.last() {
            Some(d) => before.push(snapshot_of((readings.len() - 1) as u32, d)),
            None => before,
        }
    }
}

/// Builds the snapshots of all GPUs. A GPU that could not be opened is left
/// out and the others keep their numbers.
pub fn read_all_nvlink_stats(readings: &[Option<DeviceReading>]) -> (r: Vec<NvLinkSnapshot>)
    requires
        readings@.len() <= u32::MAX,
        forall|i: int|
            0 <= i < readings@.len() ==> match #[trigger] readings@[i] {
                Some(d) => d.links@.len() == links_of(d.link_count),
                None => true,
            },
    ensures
        lists::views(r@) == snapshots_of(reading_views(readings@)),
{
    let ghost all = reading_views(readings@);
    let mut out: Vec<NvLinkSnapshot> = Vec::new();
    let mut i: usize = 0;
    assert(lists::views(out@) =~= snapshots_of(all.take(0)));
    while i < readings.len()
        invariant
            i <= readings.len() <= u32::MAX,
            all == reading_views(readings@),
            forall|k: int|
                0 <= k < readings@.len() ==> match #[trigger] readings@[k] {
                    Some(d) => d.links@.len() == links_of(d.link_count),
                    None => true,
                },
            lists::views(out@) == snapshots_of(all.take(i as int)),
        decreases readings.len() - i,
    {
        proof {
            text::lemma_take_step(all, i as int);
            assert(all[i as int] == lists::opt_view(readings@[i as int]));
        }
        if let Some(d) = &readings[i] {
            assert(readings@[i as int] is Some);
            let snap = read_device_snapshot(i as u32, d);
            proof {
                lists::lemma_views_push(out@, snap);
            }
            out.push(snap);
        }
        i += 1;
    }
    assert(all.take(all.len() as int) =~= all);
    out
}

/// A byte counter is the reading times 1024 where it was answered as a 64-bit
/// number, and unknown otherwise.
pub proof fn law_field_counts_kilobytes(f: FieldReading)
    ensures
        f.nvml_return != 0 || f.value_type != 3 ==> field_bytes(f) is None,
        f.nvml_return == 0 && f.value_type == 3 ==> field_bytes(f) == Some(
            (1024 * f.value % 0x1_0000_0000_0000_0000) as u64,
        ),
        f.nvml_return == 0 && f.value_type == 3 && 1024 * f.value <= u64::MAX ==> field_bytes(f)
            == Some((1024 * f.value) as u64),
{
}

/// Whether two counters are what a throughput reading says: the first is the
/// transmit field's, the second the receive field's.
pub open spec fn counts_both_ways(
    t: ThroughputReading,
    tx_bytes: Option<u64>,
    rx_bytes: Option<u64>,
) -> bool {
    &&& t.rc != 0 ==> tx_bytes is None && rx_bytes is None
    &&& t.rc == 0 && (t.tx.nvml_return != 0 || t.tx.value_type != 3) ==> tx_bytes is None
    &&& t.rc == 0 && (t.rx.nvml_return != 0 || t.rx.value_type != 3) ==> rx_bytes is None
    &&& t.rc == 0 && t.tx.nvml_return == 0 && t.tx.value_type == 3 && 1024 * t.tx.value <= u64::MAX
        ==> tx_bytes == Some((1024 * t.tx.value) as u64)
    &&& t.rc == 0 && t.rx.nvml_return == 0 && t.rx.value_type == 3 && 1024 * t.rx.value <= u64::MAX
        ==> rx_bytes == Some((1024 * t.rx.value) as u64)
}

/// Transmitted bytes come from the transmit field and received bytes from the
/// receive field, for a link as for a whole GPU.
pub proof fn law_throughput_keeps_direction(
    idx: u32,
    d: DeviceReadingView,
    i: int,
    t: ThroughputReading,
)
    requires
        0 <= i < d.links.len(),
    ensures
        counts_both_ways(t, throughput_bytes(t).0, throughput_bytes(t).1),
        counts_both_ways(
            d.throughput,
            snapshot_of(idx, d).tx_bytes,
            snapshot_of(idx, d).rx_bytes,
        ),
        counts_both_ways(
            d.links[i].throughput,
            snapshot_of(idx, d).links[i].tx_bytes,
            snapshot_of(idx, d).links[i].rx_bytes,
        ),
{
}

/// A snapshot has the links that were read, in order and by number, and each
/// keeps what was read of it, the three error counts each in their place. A
/// link is active only where that was reported, and only then has a speed: its
/// own where it is known, else the common one.
pub proof fn law_links_keep_their_readings(idx: u32, d: DeviceReadingView, i: int)
    requires
        0 <= i < d.links.len() <= u32::MAX,
    ensures
        snapshot_of(idx, d).links.len() == d.links.len(),
        ({
            let link = snapshot_of(idx, d).links[i];
            let read = d.links[i];
            &&& link.link_id == i
            &&& link.is_active <==> read.is_active == Some(true)
            &&& link.version == read.version
            &&& link.remote_pci_bdf == read.remote_pci_bdf
            &&& link.crc_error_count == read.crc_error_count
            &&& link.replay_error_count == read.replay_error_count
            &&& link.recovery_error_count == read.recovery_error_count
            &&& read.remote_device_type is None ==> link.remote_device_type
                == RemoteDeviceType::Unknown
            &&& read.remote_device_type matches Some(t) ==> link.remote_device_type == t
            &&& !link.is_active ==> link.speed_mbps is None
            &&& link.is_active ==> match (read.speed_mbps, d.common_speed_mbps) {
                (Some(own), _) if own > 0 => link.speed_mbps == Some(own as u64),
                (_, Some(common)) if common > 0 => link.speed_mbps == Some(common as u64),
                _ => link.speed_mbps is None,
            }
        }),
{
}

/// A snapshot names its GPU, carries its health and the number of its links,
/// which is 18 where none was reported.
pub proof fn law_snapshot_carries_its_gpu(idx: u32, d: DeviceReadingView)
    ensures
        snapshot_of(idx, d).gpu_index == idx,
        d.name is None ==> snapshot_of(idx, d).gpu_name.len() == 0,
        d.name matches Some(n) ==> snapshot_of(idx, d).gpu_name == n,
        snapshot_of(idx, d).metrics == d.metrics,
        d.link_count is None ==> snapshot_of(idx, d).link_count == 18,
        d.link_count matches Some(n) ==> snapshot_of(idx, d).link_count == n,
        snapshot_of(idx, d).link_mbps is None <==> speed_sum(snapshot_of(idx, d).links) == 0,
        0 < speed_sum(snapshot_of(idx, d).links) <= u64::MAX ==> snapshot_of(idx, d).link_mbps
            == Some(speed_sum(snapshot_of(idx, d).links) as u64),
{
}

/// The speed of a GPU is that of its links together, and each active link
/// counts once.
pub proof fn law_links_add_up(
    a: Seq<LinkSnapshotView>,
    b: Seq<LinkSnapshotView>,
    link: LinkSnapshotView,
)
    ensures
        speed_sum(a + b) == speed_sum(a) + speed_sum(b),
        link.speed_mbps is None ==> speed_sum(seq![link]) == 0,
        link.speed_mbps matches Some(v) ==> speed_sum(seq![link]) == v,
        active_count(a + b) == active_count(a) + active_count(b),
        active_count(seq![link]) == (if link.is_active {
            1nat
        } else {
            0nat
        }),
    decreases b.len(),
{
    assert(seq![link].drop_last() =~= seq![]);
    assert(speed_sum(seq![]) == 0);
    assert(active_count(seq![]) == 0);
    if b.len() == 0 {
        assert(a + b =~= a);
    } else {
        law_links_add_up(a, b.drop_last(), link);
        assert((a + b).drop_last() =~= a + b.drop_last());
        assert((a + b).last() == b.last());
    }
}

/// The snapshots are those of the GPUs that could be read, in order, each under
/// the GPU's own index.
pub proof fn law_snapshots_in_gpu_order(readings: Seq<Option<DeviceReadingView>>, n: int)
    requires
        0 <= n < readings.len() <= u32::MAX,
    ensures
        snapshots_of(readings.take(0)) == Seq::<NvLinkSnapshotView>::empty(),
        snapshots_of(readings.take(readings.len() as int)) == snapshots_of(readings),
        snapshots_of(readings.take(n + 1)) == snapshots_of(readings.take(n)) + (match readings[n] {
            Some(d) => seq![snapshot_of(n as u32, d)],
            None => seq![],
        }),
{
    assert(readings.take(readings.len() as int) =~= readings);
    assert(readings.take(n + 1).drop_last() =~= readings.take(n));
    assert(readings.take(n + 1).last() == readings[n]);
    assert(snapshots_of(readings.take(n + 1)) =~= snapshots_of(readings.take(n)) + (
    match readings[n] {
        Some(d) => seq![snapshot_of(n as u32, d)],
        None => seq![],
    }));
}

/// What a value holds is what its fields hold, each under its own name.
pub proof fn law_views_hold_every_field(
    link_snapshot: LinkSnapshot,
    nv_link_snapshot: NvLinkSnapshot,
    link_reading: LinkReading,
    device_reading: DeviceReading,
)
    ensures
        link_snapshot@.link_id == link_snapshot.link_id,
        link_snapshot@.is_active == link_snapshot.is_active,
        link_snapshot@.version == link_snapshot.version,
        link_snapshot@.speed_mbps == link_snapshot.speed_mbps,
        link_snapshot@.remote_device_type == link_snapshot.remote_device_type,
        link_snapshot@.remote_pci_bdf == lists::opt_text(link_snapshot.remote_pci_bdf),
        link_snapshot@.tx_bytes == link_snapshot.tx_bytes,
        link_snapshot@.rx_bytes == link_snapshot.rx_bytes,
        link_snapshot@.crc_error_count == link_snapshot.crc_error_count,
        link_snapshot@.replay_error_count == link_snapshot.replay_error_count,
        link_snapshot@.recovery_error_count == link_snapshot.recovery_error_count,
        nv_link_snapshot@.gpu_index == nv_link_snapshot.gpu_index,
        nv_link_snapshot@.gpu_name == nv_link_snapshot.gpu_name@,
        nv_link_snapshot@.metrics == nv_link_snapshot.metrics,
        nv_link_snapshot@.link_count == nv_link_snapshot.link_count,
        nv_link_snapshot@.link_mbps == nv_link_snapshot.link_mbps,
        nv_link_snapshot@.tx_bytes == nv_link_snapshot.tx_bytes,
        nv_link_snapshot@.rx_bytes == nv_link_snapshot.rx_bytes,
        nv_link_snapshot@.links == lists::views(nv_link_snapshot.links@),
        link_reading@.is_active == link_reading.is_active,
        link_reading@.version == link_reading.version,
        link_reading@.remote_device_type == link_reading.remote_device_type,
        link_reading@.remote_pci_bdf == lists::opt_text(link_reading.remote_pci_bdf),
        link_reading@.crc_error_count == link_reading.crc_error_count,
        link_reading@.replay_error_count == link_reading.replay_error_count,
        link_reading@.recovery_error_count == link_reading.recovery_error_count,
        link_reading@.throughput == link_reading.throughput,
        link_reading@.speed_mbps == link_reading.speed_mbps,
        device_reading@.name == lists::opt_text(device_reading.name),
        device_reading@.metrics == device_reading.metrics,
        device_reading@.link_count == device_reading.link_count,
        device_reading@.common_speed_mbps == device_reading.common_speed_mbps,
        device_reading@.links == lists::views(device_reading.links@),
        device_reading@.throughput == device_reading.throughput,
{
}

} // verus!
