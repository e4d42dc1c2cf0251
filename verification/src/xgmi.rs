//! XGMI snapshots out of what AMD SMI (`libamd_smi`) reports.
//!
//! Speeds are kept in Mb/s.

use vstd::prelude::*;

use crate::gpu::GpuMetrics;
use crate::lists;
use crate::netlink;
use crate::text;

verus! {

/// The return code of a call that succeeded.
pub const AMDSMI_STATUS_SUCCESS: u32 = 0;

/// The most entries that a link metrics table holds.
pub const AMDSMI_MAX_NUM_XGMI_PHYSICAL_LINK: u32 = 64;

/// The io-link type of XGMI.
pub const AMDSMI_IOLINK_TYPE_XGMI: u32 = 2;

/// The longest name, with its terminator.
pub const AMDSMI_MAX_STRING_LENGTH: usize = 256;

/// Snapshot of a single XGMI link at one sample.
#[derive(Debug)]
pub struct XgmiLinkSnapshot {
    /// Peer GPU index (also indexes amdsmi's per-peer accumulators); not
    /// contiguous since the GPU's own index is skipped.
    pub link_id: u32,
    pub is_active: bool,
    /// Link max bandwidth in Mb/s. Used for bar scaling.
    pub speed_mbps: Option<u64>,
    /// Per-lane bit rate in Mb/s.
    pub bit_rate_mbps: Option<u64>,
    /// BDF of the peer GPU on the other end of the link.
    pub remote_pci_bdf: Option<String>,
    /// Accumulated bytes written to the link (amdsmi `write` KB * 1024).
    pub tx_bytes: Option<u64>,
    /// Accumulated bytes read from the link (amdsmi `read` KB * 1024).
    pub rx_bytes: Option<u64>,
}

/// What a link snapshot holds.
pub struct XgmiLinkSnapshotView {
    pub link_id: u32,
    pub is_active: bool,
    pub speed_mbps: Option<u64>,
    pub bit_rate_mbps: Option<u64>,
    pub remote_pci_bdf: Option<Seq<char>>,
    pub tx_bytes: Option<u64>,
    pub rx_bytes: Option<u64>,
}

impl View for XgmiLinkSnapshot {
    type V = XgmiLinkSnapshotView;

    open spec fn view(&self) -> XgmiLinkSnapshotView {
        XgmiLinkSnapshotView {
            link_id: self.link_id,
            is_active: self.is_active,
            speed_mbps: self.speed_mbps,
            bit_rate_mbps: self.bit_rate_mbps,
            remote_pci_bdf: lists::opt_text(self.remote_pci_bdf),
            tx_bytes: self.tx_bytes,
            rx_bytes: self.rx_bytes,
        }
    }
}

impl Clone for XgmiLinkSnapshot {
    fn clone(&self) -> (r: Self)
        ensures
            r@ == self@,
    {
        XgmiLinkSnapshot {
            link_id: self.link_id,
            is_active: self.is_active,
            speed_mbps: self.speed_mbps,
            bit_rate_mbps: self.bit_rate_mbps,
            remote_pci_bdf: lists::copy_text(&self.remote_pci_bdf),
            tx_bytes: self.tx_bytes,
            rx_bytes: self.rx_bytes,
        }
    }
}

/// Snapshot of every XGMI link attached to one GPU.
#[derive(Debug)]
pub struct XgmiSnapshot {
    pub gpu_index: u32,
    pub gpu_name: String,
    /// Live GPU health, where it was read.
    pub metrics: Option<GpuMetrics>,
    /// Number of topology-confirmed XGMI peer links.
    pub link_count: u32,
    /// Sum of active links' max bandwidth in Mb/s.
    pub link_mbps: Option<u64>,
    /// XGMI_WAFL block accumulated ECC counts (per-GPU, not per-link).
    pub correctable_errors: Option<u64>,
    pub uncorrectable_errors: Option<u64>,
    pub links: Vec<XgmiLinkSnapshot>,
}

/// What the snapshot of a GPU holds.
#[verifier::ext_equal]
pub struct XgmiSnapshotView {
    pub gpu_index: u32,
    pub gpu_name: Seq<char>,
    pub metrics: Option<GpuMetrics>,
    pub link_count: u32,
    pub link_mbps: Option<u64>,
    pub correctable_errors: Option<u64>,
    pub uncorrectable_errors: Option<u64>,
    pub links: Seq<XgmiLinkSnapshotView>,
}

impl View for XgmiSnapshot {
    type V = XgmiSnapshotView;

    open spec fn view(&self) -> XgmiSnapshotView {
        XgmiSnapshotView {
            gpu_index: self.gpu_index,
            gpu_name: self.gpu_name@,
            metrics: self.metrics,
            link_count: self.link_count,
            link_mbps: self.link_mbps,
            correctable_errors: self.correctable_errors,
            uncorrectable_errors: self.uncorrectable_errors,
            links: lists::views(self.links@),
        }
    }
}

impl Clone for XgmiSnapshot {
    fn clone(&self) -> (r: Self)
        ensures
            r@ == self@,
    {
        let links = self.links.clone();
        assert(lists::views(links@) =~= lists::views(self.links@));
        XgmiSnapshot {
            gpu_index: self.gpu_index,
            gpu_name: self.gpu_name.clone(),
            metrics: self.metrics,
            link_count: self.link_count,
            link_mbps: self.link_mbps,
            correctable_errors: self.correctable_errors,
            uncorrectable_errors: self.uncorrectable_errors,
            links,
        }
    }
}

/// The number of links in a list that are up.
pub open spec fn active_count(links: Seq<XgmiLinkSnapshotView>) -> nat
    decreases links.len(),
{
    if links.len() == 0 {
        0
    } else {
        active_count(links.drop_last()) + if links.last().is_active {
            1nat
        } else {
            0
        }
    }
}

impl XgmiSnapshot {
    /// Count of links currently reported as up, in 32 bits.
    pub fn active_links(&self) -> (r: u32)
        ensures
            r == active_count(self@.links) % 0x1_0000_0000,
    {
        let ghost all = self@.links;
        let mut n: u64 = 0;
        let mut i: usize = 0;
        while i < self.links.len()
            invariant
                i <= self.links.len(),
                all == lists::views(self.links@),
                n == active_count(all.take(i as int)),
                n <= i,
            decreases self.links.len() - i,
        {
            proof {
                text::lemma_take_step(all, i as int);
                assert(all[i as int] == self.links@[i as int]@);
            }
            if self.links[i].is_active {
                n += 1;
            }
            i += 1;
        }
        assert(all.take(all.len() as int) =~= all);
        (n % 0x1_0000_0000) as u32
    }
}

/// The address of a PCI function in the form "dddd:bb:dd.f". Counted from the
/// lowest bit, a packed address holds the function in 3 bits, the device in 5,
/// the bus in 8 and the domain above.
pub open spec fn bdf_text(bdf: u64) -> Seq<char> {
    text::padded_left(text::hexadecimal((bdf / 0x1_0000) as nat), '0', 4) + seq![':']
        + text::padded_left(text::hexadecimal((bdf / 0x100 % 0x100) as nat), '0', 2) + seq![':']
        + text::padded_left(text::hexadecimal((bdf / 8 % 32) as nat), '0', 2) + seq!['.']
        + text::hexadecimal((bdf % 8) as nat)
}

/// Renders a packed PCI address (domain:bus:device.function).
pub fn format_bdf(bdf: u64) -> (r: String)
    ensures
        r@ == bdf_text(bdf),
{
    let domain = text::hexadecimal_u64(bdf / 0x1_0000);
    let bus = text::hexadecimal_u64(bdf / 0x100 % 0x100);
    let device = text::hexadecimal_u64(bdf / 8 % 32);
    let function = text::hexadecimal_u64(bdf % 8);
    let mut out = text::pad_left(domain.as_str(), '0', 4);
    out.push(':');
    out.append(text::pad_left(bus.as_str(), '0', 2).as_str());
    out.push(':');
    out.append(text::pad_left(device.as_str(), '0', 2).as_str());
    out.push('.');
    out.append(function.as_str());
    assert(out@ =~= bdf_text(bdf));
    out
}

/// One entry of a link metrics table.
#[derive(Clone, Copy, Debug, PartialEq, Eq, Structural)]
pub struct LinkMetricsEntry {
    pub bdf: u64,
    /// Current link speed in Gb/s.
    pub bit_rate: u32,
    /// Max link bandwidth in Gb/s.
    pub max_bandwidth: u32,
    pub link_type: u32,
    /// Total data received per link (KB).
    pub read_kb: u64,
    /// Total data transmitted per link (KB).
    pub write_kb: u64,
}

/// The link metrics of one GPU, with the entries indexed by destination GPU.
#[derive(Debug)]
pub struct LinkMetrics {
    pub num_links: u32,
    pub links: Vec<LinkMetricsEntry>,
}

/// The error counts of one block.
#[derive(Clone, Copy, Debug, PartialEq, Eq, Structural)]
pub struct ErrorCount {
    pub correctable_count: u64,
    pub uncorrectable_count: u64,
    pub deferred_count: u64,
}

/// The fixed part of the PCIe information of one GPU.
#[derive(Clone, Copy, Debug, PartialEq, Eq, Structural)]
pub struct PcieInfo {
    pub max_pcie_width: u16,
    /// MT/s at runtime.
    pub max_pcie_speed: u32,
}

/// The text that bytes encode in UTF-8 when each part that is not valid is
/// replaced by the replacement character.
pub uninterp spec fn lossy_text(bytes: Seq<u8>) -> Seq<char>;

/// `String::from_utf8_lossy` decodes bytes, replacing what is not valid UTF-8;
/// bytes that are valid are decoded as they are.
#[verifier::external_body]
fn decode_lossy(bytes: &[u8]) -> (r: String)
    ensures
        r@ == lossy_text(bytes@),
        vstd::utf8::valid_utf8(bytes@) ==> r@ == vstd::utf8::decode_utf8(bytes@),
{
    String::from_utf8_lossy(bytes).into_owned()
}

/// What amdsmi answered when it was asked for some handles: first for their
/// number, then for the handles.
#[derive(Debug)]
pub struct Listing {
    pub count_rc: u32,
    pub count: u32,
    pub list_rc: u32,
    /// How many handles the second answer claims.
    pub listed: u32,
    pub handles: Vec<usize>,
}

/// Whether the handles of a listing are asked for.
pub open spec fn has_handles(l: Listing) -> bool {
    l.count_rc == AMDSMI_STATUS_SUCCESS && l.count > 0
}

/// The handles that a listing gives: the first ones, as many as it claims, and
/// none when either question failed.
pub open spec fn listed_handles(l: Listing) -> Seq<usize> {
    if !has_handles(l) || l.list_rc != AMDSMI_STATUS_SUCCESS {
        seq![]
    } else if l.listed < l.handles@.len() {
        l.handles@.take(l.listed as int)
    } else {
        l.handles@
    }
}

/// The handles of some listings, one listing after the other.
pub open spec fn all_handles(listings: Seq<Listing>) -> Seq<usize>
    decreases listings.len(),
{
    if listings.len() == 0 {
        seq![]
    } else {
        all_handles(listings.drop_last()) + listed_handles(listings.last())
    }
}

impl Listing {
    /// Tests whether the handles are to be asked for.
    pub fn asks_handles(&self) -> (r: bool)
        ensures
            r == has_handles(*self),
    {
        self.count_rc == AMDSMI_STATUS_SUCCESS && self.count > 0
    }

    /// The handles that the listing gives.
    pub fn read_handles(&self) -> (r: Vec<usize>)
        ensures
            r@ == listed_handles(*self),
    {
        let mut out: Vec<usize> = Vec::new();
        if !self.asks_handles() || self.list_rc != AMDSMI_STATUS_SUCCESS {
            return out;
        }
        let mut i: usize = 0;
        assert(out@ =~= listed_handles(*self).take(0));
        while i < self.handles.len() && (i as u64) < self.listed as u64
            invariant
                i <= listed_handles(*self).len(),
                has_handles(*self),
                self.list_rc == AMDSMI_STATUS_SUCCESS,
                out@ == listed_handles(*self).take(i as int),
            decreases self.handles.len() - i,
        {
            proof {
                text::lemma_take_step(listed_handles(*self), i as int);
            }
            out.push(self.handles[i]);
            i += 1;
        }
        assert(listed_handles(*self).take(i as int) =~= listed_handles(*self));
        out
    }
}

/// Flatten socket/processor enumeration into one ordered GPU handle list, out
/// of the listing of each socket. A socket that fails is left out. This order
/// defines `gpu_index` and matches amdsmi's accumulator indexing.
pub fn enumerate_gpus(sockets: &[Listing]) -> (r: Vec<usize>)
    ensures
        r@ == all_handles(sockets@),
{
    let mut out: Vec<usize> = Vec::new();
    let mut i: usize = 0;
    assert(sockets@.take(0) =~= seq![]);
    while i < sockets.len()
        invariant
            i <= sockets.len(),
            out@ == all_handles(sockets@.take(i as int)),
        decreases sockets.len() - i,
    {
        proof {
            text::lemma_take_step(sockets@, i as int);
        }
        let mut more = sockets[i].read_handles();
        out.append(&mut more);
        i += 1;
    }
    assert(sockets@.take(i as int) =~= sockets@);
    out
}

/// The bytes of a name buffer: those before the terminator, which always comes
/// before the end.
pub open spec fn name_bytes(buffer: Seq<u8>) -> Seq<u8> {
    netlink::before_zero(
        buffer.take(
            if buffer.len() < AMDSMI_MAX_STRING_LENGTH - 1 {
                buffer.len() as int
            } else {
                AMDSMI_MAX_STRING_LENGTH - 1
            },
        ),
    )
}

/// The name that a decoded buffer shows; none when only white space is left.
pub open spec fn shown_name(decoded: Seq<char>) -> Option<Seq<char>> {
    let name = text::trimmed(decoded);
    if name.len() == 0 {
        None
    } else {
        Some(name)
    }
}

/// Evaluates a decoded name.
pub fn name_of(decoded: &str) -> (r: Option<String>)
    ensures
        lists::opt_text(r) == shown_name(decoded@),
{
    let name = text::trim(decoded);
    if name.as_str().unicode_len() == 0 {
        None
    } else {
        Some(name)
    }
}

/// The marketing name of a GPU out of the buffer that the call filled.
pub fn read_gpu_name(rc: u32, buffer: &[u8]) -> (r: Option<String>)
    ensures
        lists::opt_text(r) == (if rc == AMDSMI_STATUS_SUCCESS {
            shown_name(lossy_text(name_bytes(buffer@)))
        } else {
            None
        }),
{
    if rc != AMDSMI_STATUS_SUCCESS {
        return None;
    }
    let end: usize = if buffer.len() < AMDSMI_MAX_STRING_LENGTH - 1 {
        buffer.len()
    } else {
        AMDSMI_MAX_STRING_LENGTH - 1
    };
    let usable: &[u8] = &buffer[0..end];
    assert(usable@ =~= buffer@.take(end as int));
    let stop: usize = netlink::zero_position(usable);
    let bytes: &[u8] = &usable[0..stop];
    assert(bytes@ == name_bytes(buffer@));
    let decoded = decode_lossy(bytes);
    name_of(decoded.as_str())
}

/// Bit rate and bandwidth of a link in Mb/s. The speed comes in MT/s; a value
/// below a thousand is taken to be in GT/s.
pub open spec fn speeds_of(rc: u32, info: PcieInfo) -> (Option<u64>, Option<u64>) {
    if rc != AMDSMI_STATUS_SUCCESS || info.max_pcie_speed == 0 {
        (None, None)
    } else {
        let bit_rate = if info.max_pcie_speed >= 1000 {
            info.max_pcie_speed as u64
        } else {
            (info.max_pcie_speed * 1000) as u64
        };
        (
            Some(bit_rate),
            if info.max_pcie_width > 0 {
                Some((bit_rate * info.max_pcie_width) as u64)
            } else {
                None
            },
        )
    }
}

/// Evaluates the PCIe information of a GPU.
pub fn read_link_speed(rc: u32, info: &PcieInfo) -> (r: (Option<u64>, Option<u64>))
    ensures
        r == speeds_of(rc, *info),
{
    if rc != AMDSMI_STATUS_SUCCESS || info.max_pcie_speed == 0 {
        return (None, None);
    }
    let bit_rate: u64 = if info.max_pcie_speed >= 1000 {
        info.max_pcie_speed as u64
    } else {
        info.max_pcie_speed as u64 * 1000
    };
    let bandwidth: Option<u64> = if info.max_pcie_width > 0 {
        assert(bit_rate * info.max_pcie_width <= 0xffff_ffff * 0xffff) by (nonlinear_arith)
            requires
                bit_rate <= 0xffff_ffff,
                info.max_pcie_width <= 0xffff,
        ;
        Some(bit_rate * info.max_pcie_width as u64)
    } else {
        None
    };
    (Some(bit_rate), bandwidth)
}

/// Correctable and uncorrectable errors of the XGMI block, where they were read.
pub open spec fn errors_of(rc: u32, ec: ErrorCount) -> (Option<u64>, Option<u64>) {
    if rc == AMDSMI_STATUS_SUCCESS {
        (Some(ec.correctable_count), Some(ec.uncorrectable_count))
    } else {
        (None, None)
    }
}

/// Evaluates the error counts of the XGMI block.
pub fn read_wafl_errors(rc: u32, ec: &ErrorCount) -> (r: (Option<u64>, Option<u64>))
    ensures
        r == (if rc == AMDSMI_STATUS_SUCCESS {
            (Some(ec.correctable_count), Some(ec.uncorrectable_count))
        } else {
            (None, None)
        }),
        r == errors_of(rc, *ec),
{
    if rc != AMDSMI_STATUS_SUCCESS {
        (None, None)
    } else {
        (Some(ec.correctable_count), Some(ec.uncorrectable_count))
    }
}

/// The answer of the topology about two GPUs.
#[derive(Clone, Copy, Debug, PartialEq, Eq, Structural)]
pub struct TopoReading {
    pub rc: u32,
    pub link_type: u32,
}

/// Whether two GPUs are connected by XGMI.
pub open spec fn xgmi_connected(t: TopoReading) -> bool {
    t.rc == AMDSMI_STATUS_SUCCESS && t.link_type == AMDSMI_IOLINK_TYPE_XGMI
}

/// True when topology reports an XGMI io-link between two GPUs.
pub fn is_xgmi_peer(t: &TopoReading) -> (r: bool)
    ensures
        r == xgmi_connected(*t),
{
    t.rc == AMDSMI_STATUS_SUCCESS && t.link_type == AMDSMI_IOLINK_TYPE_XGMI
}

/// Everything read of one GPU.
#[derive(Debug)]
pub struct GpuReading {
    /// The link metrics; none when they could not be read.
    pub link_metrics: Option<LinkMetrics>,
    pub bdf: Option<u64>,
    pub name: Option<String>,
    pub metrics: Option<GpuMetrics>,
    pub bit_rate_mbps: Option<u64>,
    pub bandwidth_mbps: Option<u64>,
    pub correctable_errors: Option<u64>,
    pub uncorrectable_errors: Option<u64>,
    /// The topology answer for every GPU, by index.
    pub peers: Vec<TopoReading>,
}

/// What was read of one GPU.
#[verifier::ext_equal]
pub struct GpuReadingView {
    pub link_metrics: Option<(u32, Seq<LinkMetricsEntry>)>,
    pub bdf: Option<u64>,
    pub name: Option<Seq<char>>,
    pub metrics: Option<GpuMetrics>,
    pub bit_rate_mbps: Option<u64>,
    pub bandwidth_mbps: Option<u64>,
    pub correctable_errors: Option<u64>,
    pub uncorrectable_errors: Option<u64>,
    pub peers: Seq<TopoReading>,
}

impl View for GpuReading {
    type V = GpuReadingView;

    open spec fn view(&self) -> GpuReadingView {
        GpuReadingView {
            link_metrics: match self.link_metrics {
                Some(m) => Some((m.num_links, m.links@)),
                None => None,
            },
            bdf: self.bdf,
            name: lists::opt_text(self.name),
            metrics: self.metrics,
            bit_rate_mbps: self.bit_rate_mbps,
            bandwidth_mbps: self.bandwidth_mbps,
            correctable_errors: self.correctable_errors,
            uncorrectable_errors: self.uncorrectable_errors,
            peers: self.peers@,
        }
    }
}

/// Whether the accumulators of a peer can be taken from its place in the
/// table: the place is in use and its own address is unset or the peer's.
pub open spec fn has_entry(m: (u32, Seq<LinkMetricsEntry>), peer: int, bdf: Option<u64>) -> bool {
    &&& peer < m.0
    &&& peer < AMDSMI_MAX_NUM_XGMI_PHYSICAL_LINK
    &&& peer < m.1.len()
    &&& (m.1[peer].bdf == 0 || bdf == Some(m.1[peer].bdf))
}

/// A number of kilobytes in bytes, in 64 bits.
pub open spec fn kb_bytes(kb: u64) -> u64 {
    (kb * 1024 % 0x1_0000_0000_0000_0000) as u64
}

/// The link of one GPU to a peer. Topology-confirmed peers show as active.
pub open spec fn peer_link(
    gpu: GpuReadingView,
    m: (u32, Seq<LinkMetricsEntry>),
    peer: int,
    peer_bdf: Option<u64>,
) -> XgmiLinkSnapshotView {
    let known = has_entry(m, peer, peer_bdf);
    XgmiLinkSnapshotView {
        link_id: peer as u32,
        is_active: true,
        speed_mbps: gpu.bandwidth_mbps,
        bit_rate_mbps: gpu.bit_rate_mbps,
        remote_pci_bdf: match peer_bdf {
            Some(b) => Some(bdf_text(b)),
            None => None,
        },
        tx_bytes: if known {
            Some(kb_bytes(m.1[peer].write_kb))
        } else {
            None
        },
        rx_bytes: if known {
            Some(kb_bytes(m.1[peer].read_kb))
        } else {
            None
        },
    }
}

/// The links of one GPU to its peers among the first `n` GPUs.
pub open spec fn peer_links(
    gpus: Seq<GpuReadingView>,
    idx: int,
    m: (u32, Seq<LinkMetricsEntry>),
    n: int,
) -> Seq<XgmiLinkSnapshotView>
    decreases n,
{
    if n <= 0 {
        seq![]
    } else {
        let before = peer_links(gpus, idx, m, n - 1);
        let peer = n - 1;
        if peer != idx && xgmi_connected(gpus[idx].peers[peer]) {
            before.push(peer_link(gpus[idx], m, peer, gpus[peer].bdf))
        } else {
            before
        }
    }
}

/// A bandwidth taken `n` times, up to what 64 bits hold.
pub open spec fn total_speed(speed: Option<u64>, n: nat) -> u64 {
    let sum = match speed {
        Some(v) => v * n,
        None => 0,
    };
    if sum > u64::MAX {
        u64::MAX
    } else {
        sum as u64
    }
}

/// The snapshot of one GPU; none when its link metrics could not be read or no
/// other GPU is connected to it.
pub open spec fn snapshot_of(gpus: Seq<GpuReadingView>, idx: int) -> Option<XgmiSnapshotView> {
    match gpus[idx].link_metrics {
        None => None,
        Some(m) => {
            let links = peer_links(gpus, idx, m, gpus.len() as int);
            let total = total_speed(gpus[idx].bandwidth_mbps, links.len());
            if links.len() == 0 {
                None
            } else {
                Some(
                    XgmiSnapshotView {
                        gpu_index: idx as u32,
                        gpu_name: match gpus[idx].name {
                            Some(n) => n,
                            None => seq![],
                        },
                        metrics: gpus[idx].metrics,
                        link_count: links.len() as u32,
                        link_mbps: if total > 0 {
                            Some(total)
                        } else {
                            None
                        },
                        correctable_errors: gpus[idx].correctable_errors,
                        uncorrectable_errors: gpus[idx].uncorrectable_errors,
                        links,
                    },
                )
            }
        },
    }
}

fn build_link(gpu: &GpuReading, m: &LinkMetrics, peer: u32, peer_bdf: Option<u64>) -> (r:
    XgmiLinkSnapshot)
    ensures
        r@ == peer_link(gpu@, (m.num_links, m.links@), peer as int, peer_bdf),
{
    let mut tx_bytes: Option<u64> = None;
    let mut rx_bytes: Option<u64> = None;
    if peer < m.num_links && peer < AMDSMI_MAX_NUM_XGMI_PHYSICAL_LINK && (peer as u64)
        < m.links.len() as u64 {
        let entry = m.links[peer as usize];
        let agrees: bool = entry.bdf == 0 || match peer_bdf {
            Some(b) => b == entry.bdf,
            None => false,
        };
        if agrees {
            tx_bytes = Some(entry.write_kb.wrapping_mul(1024));
            rx_bytes = Some(entry.read_kb.wrapping_mul(1024));
        }
    }
    let remote_pci_bdf: Option<String> = match peer_bdf {
        Some(b) => Some(format_bdf(b)),
        None => None,
    };
    XgmiLinkSnapshot {
        link_id: peer,
        is_active: true,
        speed_mbps: gpu.bandwidth_mbps,
        bit_rate_mbps: gpu.bit_rate_mbps,
        remote_pci_bdf,
        tx_bytes,
        rx_bytes,
    }
}

/// Builds one GPU's snapshot. A "link" is an XGMI peer connection: topology
/// says which destination GPUs are XGMI-reachable, the link metrics supply the
/// per-peer accumulators (indexed by destination GPU).
pub fn read_processor_snapshot(gpus: &[GpuReading], idx: usize) -> (r: Option<XgmiSnapshot>)
    requires
        idx < gpus@.len() <= u32::MAX,
        gpus@[idx as int].peers@.len() == gpus@.len(),
    ensures
        lists::opt_view(r) == snapshot_of(lists::views(gpus@), idx as int),
{
    let ghost all = lists::views(gpus@);
    let gpu = &gpus[idx];
    assert(all[idx as int] == gpu@);
    let m = match &gpu.link_metrics {
        Some(m) => m,
        None => {
            return None;
        },
    };
    let ghost mv = (m.num_links, m.links@);
    let mut total: u64 = 0;
    let mut links: Vec<XgmiLinkSnapshot> = Vec::new();
    let mut peer: usize = 0;
    assert(lists::views(links@) =~= peer_links(all, idx as int, mv, 0));
    while peer < gpus.len()
        invariant
            peer <= gpus.len() <= u32::MAX,
            idx < gpus@.len(),
            all == lists::views(gpus@),
            *gpu == gpus@[idx as int],
            all[idx as int] == gpu@,
            gpu.peers@.len() == gpus@.len(),
            mv == (m.num_links, m.links@),
            lists::views(links@) == peer_links(all, idx as int, mv, peer as int),
            links@.len() <= peer,
            total == total_speed(gpu.bandwidth_mbps, links@.len()),
        decreases gpus.len() - peer,
    {
        if peer != idx && is_xgmi_peer(&gpu.peers[peer]) {
            assert(all[peer as int] == gpus@[peer as int]@);
            let link = build_link(gpu, m, peer as u32, gpus[peer].bdf);
            proof {
                lists::lemma_views_push(links@, link);
                lemma_total_step(gpu.bandwidth_mbps, links@.len());
            }
            total = total.saturating_add(match gpu.bandwidth_mbps {
                Some(s) => s,
                None => 0,
            });
            links.push(link);
        }
        peer += 1;
    }
    // A GPU with no XGMI peers (e.g. consumer card) contributes no row.
    if links.len() == 0 {
        return None;
    }
    Some(
        XgmiSnapshot {
            gpu_index: idx as u32,
            gpu_name: match &gpu.name {
                Some(n) => n.clone(),
                None => String::new(),
            },
            metrics: gpu.metrics,
            link_count: links.len() as u32,
            link_mbps: if total > 0 {
                Some(total)
            } else {
                None
            },
            correctable_errors: gpu.correctable_errors,
            uncorrectable_errors: gpu.uncorrectable_errors,
            links,
        },
    )
}

proof fn lemma_total_step(speed: Option<u64>, n: nat)
    ensures
        total_speed(speed, n + 1) == {
            let s = match speed {
                Some(v) => v as int,
                None => 0,
            };
            if total_speed(speed, n) + s > u64::MAX {
                u64::MAX as int
            } else {
                total_speed(speed, n) + s
            }
        },
{
    match speed {
        Some(v) => {
            assert(v * (n + 1) == v * n + v) by (nonlinear_arith);
            assert(v * n >= 0) by (nonlinear_arith)
                requires
                    v >= 0,
                    n >= 0,
            ;
        },
        None => {},
    }
}

/// The snapshots of the first `n` GPUs that have one.
pub open spec fn snapshots_of(gpus: Seq<GpuReadingView>, n: int) -> Seq<XgmiSnapshotView>
    decreases n,
{
    if n <= 0 {
        seq![]
    } else {
        let before = snapshots_of(gpus, n - 1);
        match snapshot_of(gpus, n - 1) {
            Some(s) => before.push(s),
            None => before,
        }
    }
}

/// Builds the snapshots of all GPUs. Per-GPU failures skip that GPU and
/// per-field failures degrade to `None`.
pub fn read_all_xgmi_stats(gpus: &[GpuReading]) -> (r: Vec<XgmiSnapshot>)
    requires
        gpus@.len() <= u32::MAX,
        forall|i: int| 0 <= i < gpus@.len() ==> (#[trigger] gpus@[i]).peers@.len() == gpus@.len(),
    ensures
        lists::views(r@) == snapshots_of(lists::views(gpus@), gpus@.len() as int),
{
    let ghost all = lists::views(gpus@);
    let mut out: Vec<XgmiSnapshot> = Vec::new();
    let mut i: usize = 0;
    assert(lists::views(out@) =~= snapshots_of(all, 0));
    while i < gpus.len()
        invariant
            i <= gpus.len() <= u32::MAX,
            all == lists::views(gpus@),
            forall|k: int|
                0 <= k < gpus@.len() ==> (#[trigger] gpus@[k]).peers@.len() == gpus@.len(),
            lists::views(out@) == snapshots_of(all, i as int),
        decreases gpus.len() - i,
    {
        if let Some(snap) = read_processor_snapshot(gpus, i) {
            proof {
                lists::lemma_views_push(out@, snap);
            }
            out.push(snap);
        }
        i += 1;
    }
    out
}

/// A link never leads from a GPU to itself, and no peer has two links.
pub proof fn law_links_lead_to_distinct_peers(
    gpus: Seq<GpuReadingView>,
    idx: int,
    m: (u32, Seq<LinkMetricsEntry>),
    n: int,
)
    requires
        0 <= n <= u32::MAX,
        0 <= idx <= u32::MAX,
    ensures
        forall|i: int|
            0 <= i < peer_links(gpus, idx, m, n).len() ==> (#[trigger] peer_links(
                gpus,
                idx,
                m,
                n,
            )[i]).link_id < n && peer_links(gpus, idx, m, n)[i].link_id != idx,
        forall|i: int, j: int|
            #![trigger peer_links(gpus, idx, m, n)[i], peer_links(gpus, idx, m, n)[j]]
            0 <= i < j < peer_links(gpus, idx, m, n).len() ==> peer_links(
                gpus,
                idx,
                m,
                n,
            )[i].link_id < peer_links(gpus, idx, m, n)[j].link_id,
    decreases n,
{
    if n > 0 {
        law_links_lead_to_distinct_peers(gpus, idx, m, n - 1);
        let before = peer_links(gpus, idx, m, n - 1);
        let after = peer_links(gpus, idx, m, n);
        assert forall|i: int| 0 <= i < after.len() implies (#[trigger] after[i]).link_id < n
            && after[i].link_id != idx by {
            if i < before.len() {
                assert(after[i] == before[i]);
            }
        }
        assert forall|i: int, j: int|
            #![trigger after[i], after[j]]
            0 <= i < j < after.len() implies after[i].link_id < after[j].link_id by {
            assert(after[i] == before[i]);
            if j < before.len() {
                assert(after[j] == before[j]);
            }
        }
    }
}

/// Whether a place in the table of link metrics is in use for a peer: within
/// the links that are reported, and with an address that is unset or the peer's.
pub open spec fn in_use(
    m: (u32, Seq<LinkMetricsEntry>),
    peer: int,
    peer_bdf: Option<u64>,
) -> bool {
    &&& 0 <= peer < m.1.len()
    &&& peer < m.0
    &&& peer < 64
    &&& m.1[peer].bdf == 0 || peer_bdf == Some(m.1[peer].bdf)
}

/// Whether a link is the one that was read to a peer.
pub open spec fn leads_to(
    link: XgmiLinkSnapshotView,
    gpu: GpuReadingView,
    m: (u32, Seq<LinkMetricsEntry>),
    peer: int,
    peer_bdf: Option<u64>,
) -> bool {
    &&& link.link_id == peer
    &&& link.is_active
    &&& link.speed_mbps == gpu.bandwidth_mbps
    &&& link.bit_rate_mbps == gpu.bit_rate_mbps
    &&& peer_bdf is None ==> link.remote_pci_bdf is None
    &&& peer_bdf matches Some(b) ==> link.remote_pci_bdf == Some(bdf_text(b))
    &&& !in_use(m, peer, peer_bdf) ==> link.tx_bytes is None && link.rx_bytes is None
    &&& in_use(m, peer, peer_bdf) ==> link.tx_bytes == Some(
        (1024 * m.1[peer].write_kb % 0x1_0000_0000_0000_0000) as u64,
    )
    &&& in_use(m, peer, peer_bdf) ==> link.rx_bytes == Some(
        (1024 * m.1[peer].read_kb % 0x1_0000_0000_0000_0000) as u64,
    )
    &&& in_use(m, peer, peer_bdf) && 1024 * m.1[peer].write_kb <= u64::MAX ==> link.tx_bytes == Some(
        (1024 * m.1[peer].write_kb) as u64,
    )
    &&& in_use(m, peer, peer_bdf) && 1024 * m.1[peer].read_kb <= u64::MAX ==> link.rx_bytes == Some(
        (1024 * m.1[peer].read_kb) as u64,
    )
}

proof fn lemma_peer_links(
    gpus: Seq<GpuReadingView>,
    idx: int,
    m: (u32, Seq<LinkMetricsEntry>),
    n: int,
)
    requires
        0 <= idx < gpus.len() <= u32::MAX,
        0 <= n <= gpus.len(),
    ensures
        forall|i: int|
            0 <= i < peer_links(gpus, idx, m, n).len() ==> {
                let link = #[trigger] peer_links(gpus, idx, m, n)[i];
                &&& link.link_id < n
                &&& link.link_id != idx
                &&& gpus[idx].peers[link.link_id as int].rc == 0
                &&& gpus[idx].peers[link.link_id as int].link_type == 2
                &&& leads_to(link, gpus[idx], m, link.link_id as int, gpus[link.link_id as int].bdf)
            },
        forall|peer: int|
            0 <= peer < n && peer != idx && (#[trigger] gpus[idx].peers[peer]).rc == 0
                && gpus[idx].peers[peer].link_type == 2 ==> exists|i: int|
                0 <= i < peer_links(gpus, idx, m, n).len() && (#[trigger] peer_links(
                    gpus,
                    idx,
                    m,
                    n,
                )[i]).link_id == peer,
        peer_links(gpus, idx, m, n).len() <= n,
    decreases n,
{
    if n > 0 {
        lemma_peer_links(gpus, idx, m, n - 1);
        let before = peer_links(gpus, idx, m, n - 1);
        let after = peer_links(gpus, idx, m, n);
        assert forall|i: int| 0 <= i < after.len() implies ({
            let link = #[trigger] after[i];
            &&& link.link_id < n
            &&& link.link_id != idx
            &&& gpus[idx].peers[link.link_id as int].rc == 0
            &&& gpus[idx].peers[link.link_id as int].link_type == 2
            &&& leads_to(link, gpus[idx], m, link.link_id as int, gpus[link.link_id as int].bdf)
        }) by {
            if i < before.len() {
                assert(after[i] == before[i]);
            }
        }
        assert forall|peer: int|
            0 <= peer < n && peer != idx && (#[trigger] gpus[idx].peers[peer]).rc == 0
                && gpus[idx].peers[peer].link_type == 2 implies exists|i: int|
            0 <= i < after.len() && (#[trigger] after[i]).link_id == peer by {
            if peer < n - 1 {
                let i = choose|i: int|
                    0 <= i < before.len() && (#[trigger] before[i]).link_id == peer;
                assert(after[i] == before[i]);
            } else {
                assert(after[after.len() - 1].link_id == peer);
            }
        }
    }
}

/// The links of a snapshot are those to the GPUs that the topology reports over
/// XGMI, every one of them. What the GPU has written to a peer is transmitted
/// on the link, what it has read is received, 1024 bytes to the kilobyte.
pub proof fn law_links_carry_their_counters(
    gpus: Seq<GpuReadingView>,
    idx: int,
    m: (u32, Seq<LinkMetricsEntry>),
)
    requires
        0 <= idx < gpus.len() <= u32::MAX,
        gpus[idx].link_metrics == Some(m),
    ensures
        match snapshot_of(gpus, idx) {
            Some(s) => {
                &&& forall|i: int|
                    0 <= i < s.links.len() ==> {
                        let link = #[trigger] s.links[i];
                        let peer = link.link_id as int;
                        let used = in_use(m, peer, gpus[peer].bdf);
                        &&& peer < gpus.len() && peer != idx
                        &&& gpus[idx].peers[peer].rc == 0 && gpus[idx].peers[peer].link_type == 2
                        &&& link.is_active
                        &&& link.speed_mbps == gpus[idx].bandwidth_mbps
                        &&& link.bit_rate_mbps == gpus[idx].bit_rate_mbps
                        &&& gpus[peer].bdf is None ==> link.remote_pci_bdf is None
                        &&& gpus[peer].bdf matches Some(b) ==> link.remote_pci_bdf == Some(
                            bdf_text(b),
                        )
                        &&& link.tx_bytes is Some <==> used
                        &&& link.rx_bytes is Some <==> used
                        &&& used && 1024 * m.1[peer].write_kb <= u64::MAX ==> link.tx_bytes == Some(
                            (1024 * m.1[peer].write_kb) as u64,
                        )
                        &&& used && 1024 * m.1[peer].read_kb <= u64::MAX ==> link.rx_bytes == Some(
                            (1024 * m.1[peer].read_kb) as u64,
                        )
                        &&& used ==> link.tx_bytes == Some(
                            (1024 * m.1[peer].write_kb % 0x1_0000_0000_0000_0000) as u64,
                        )
                        &&& used ==> link.rx_bytes == Some(
                            (1024 * m.1[peer].read_kb % 0x1_0000_0000_0000_0000) as u64,
                        )
                    }
                &&& forall|peer: int|
                    0 <= peer < gpus.len() && peer != idx && (
                    #[trigger] gpus[idx].peers[peer]).rc == 0 && gpus[idx].peers[peer].link_type
                        == 2 ==> exists|i: int|
                        0 <= i < s.links.len() && (#[trigger] s.links[i]).link_id == peer
            },
            None => forall|peer: int|
                0 <= peer < gpus.len() && peer != idx && (#[trigger] gpus[idx].peers[peer]).rc == 0
                    ==> gpus[idx].peers[peer].link_type != 2,
        },
{
    lemma_peer_links(gpus, idx, m, gpus.len() as int);
    let links = peer_links(gpus, idx, m, gpus.len() as int);
    if snapshot_of(gpus, idx) is None {
        assert forall|peer: int|
            0 <= peer < gpus.len() && peer != idx && (#[trigger] gpus[idx].peers[peer]).rc
                == 0 implies gpus[idx].peers[peer].link_type != 2 by {
            if gpus[idx].peers[peer].link_type == 2 {
                let i = choose|i: int|
                    0 <= i < links.len() && (#[trigger] links[i]).link_id == peer;
                assert(links.len() > 0);
            }
        }
    }
}

/// A snapshot names its GPU and carries what was read of it, correctable and
/// uncorrectable errors each in their place; its bandwidth is that of its links
/// together. A GPU without link metrics has none.
pub proof fn law_snapshot_carries_its_gpu(gpus: Seq<GpuReadingView>, idx: int)
    requires
        0 <= idx < gpus.len() <= u32::MAX,
    ensures
        gpus[idx].link_metrics is None ==> snapshot_of(gpus, idx) is None,
        snapshot_of(gpus, idx) matches Some(s) ==> {
            &&& s.gpu_index == idx
            &&& gpus[idx].name is None ==> s.gpu_name.len() == 0
            &&& gpus[idx].name matches Some(n) ==> s.gpu_name == n
            &&& s.metrics == gpus[idx].metrics
            &&& s.correctable_errors == gpus[idx].correctable_errors
            &&& s.uncorrectable_errors == gpus[idx].uncorrectable_errors
            &&& s.link_count == s.links.len()
            &&& s.links.len() > 0
            &&& gpus[idx].bandwidth_mbps is None ==> s.link_mbps is None
            &&& gpus[idx].bandwidth_mbps == Some(0u64) ==> s.link_mbps is None
            &&& gpus[idx].bandwidth_mbps matches Some(v) ==> (0 < v * s.links.len() <= u64::MAX
                ==> s.link_mbps == Some((v * s.links.len()) as u64))
        },
{
    if let Some(m) = gpus[idx].link_metrics {
        lemma_peer_links(gpus, idx, m, gpus.len() as int);
    }
}

/// The snapshots are those of the GPUs one after the other; a GPU without one
/// is passed over.
pub proof fn law_snapshots_in_gpu_order(gpus: Seq<GpuReadingView>, n: int)
    requires
        0 <= n < gpus.len(),
    ensures
        snapshots_of(gpus, 0) == Seq::<XgmiSnapshotView>::empty(),
        snapshots_of(gpus, n + 1) == snapshots_of(gpus, n) + (match snapshot_of(gpus, n) {
            Some(s) => seq![s],
            None => seq![],
        }),
{
    assert(snapshots_of(gpus, n + 1) =~= snapshots_of(gpus, n) + (match snapshot_of(gpus, n) {
        Some(s) => seq![s],
        None => seq![],
    }));
}

/// Each active link counts once, and no other link counts.
pub proof fn law_active_links_add_up(
    a: Seq<XgmiLinkSnapshotView>,
    b: Seq<XgmiLinkSnapshotView>,
    link: XgmiLinkSnapshotView,
)
    ensures
        active_count(a + b) == active_count(a) + active_count(b),
        active_count(seq![link]) == (if link.is_active {
            1nat
        } else {
            0nat
        }),
    decreases b.len(),
{
    assert(seq![link].drop_last() =~= seq![]);
    assert(active_count(seq![]) == 0);
    if b.len() == 0 {
        assert(a + b =~= a);
    } else {
        law_active_links_add_up(a, b.drop_last(), link);
        assert((a + b).drop_last() =~= a + b.drop_last());
        assert((a + b).last() == b.last());
    }
}

/// A link speed given in GT/s counts a thousand times, one in MT/s counts as it
/// is; all lanes together give the bandwidth. Without a speed nothing is known.
pub proof fn law_link_speed_units(rc: u32, info: PcieInfo)
    ensures
        rc != 0 || info.max_pcie_speed == 0 ==> speeds_of(rc, info) == (None::<u64>, None::<u64>),
        rc == 0 && 0 < info.max_pcie_speed < 1000 ==> speeds_of(rc, info).0 == Some(
            (1000 * info.max_pcie_speed) as u64,
        ),
        rc == 0 && info.max_pcie_speed >= 1000 ==> speeds_of(rc, info).0 == Some(
            info.max_pcie_speed as u64,
        ),
        info.max_pcie_width == 0 ==> speeds_of(rc, info).1 is None,
        rc == 0 && info.max_pcie_speed > 0 && info.max_pcie_width > 0 ==> match speeds_of(rc, info) {
            (Some(rate), Some(bandwidth)) => bandwidth == rate * info.max_pcie_width,
            _ => false,
        },
{
    if rc == 0 && info.max_pcie_speed > 0 && info.max_pcie_width > 0 {
        let rate: int = if info.max_pcie_speed >= 1000 {
            info.max_pcie_speed as int
        } else {
            info.max_pcie_speed * 1000
        };
        let width = info.max_pcie_width;
        assert(rate * width <= 0xffff_ffff * 0xffff) by (nonlinear_arith)
            requires
                0 <= rate <= 0xffff_ffff,
                0 <= width <= 0xffff,
        ;
    }
}

/// The GPUs are those of the sockets one after the other; a socket gives the
/// handles that its list has room for, and none where either call failed.
pub proof fn law_sockets_concatenate(a: Seq<Listing>, b: Seq<Listing>)
    ensures
        all_handles(a + b) == all_handles(a) + all_handles(b),
        a.len() == 1 ==> all_handles(a) == listed_handles(a[0]),
        forall|l: Listing| #[trigger]
            listed_handles(l).len() == (if l.count_rc != 0 || l.count == 0 || l.list_rc != 0 {
                0
            } else if l.listed <= l.handles@.len() {
                l.listed as nat
            } else {
                l.handles@.len()
            }),
        forall|l: Listing, i: int|
            0 <= i < listed_handles(l).len() ==> #[trigger] listed_handles(l)[i] == l.handles@[i],
    decreases b.len(),
{
    if a.len() == 1 {
        assert(a.drop_last() =~= seq![]);
        assert(all_handles(a.drop_last()) =~= seq![]);
        assert(all_handles(a) =~= listed_handles(a[0]));
    }
    if b.len() == 0 {
        assert(a + b =~= a);
        assert(all_handles(b) =~= seq![]);
    } else {
        law_sockets_concatenate(a, b.drop_last());
        assert((a + b).drop_last() =~= a + b.drop_last());
        assert((a + b).last() == b.last());
    }
    assert(all_handles(a + b) =~= all_handles(a) + all_handles(b));
}

/// What a value holds is what its fields hold, each under its own name.
pub proof fn law_views_hold_every_field(
    xgmi_link_snapshot: XgmiLinkSnapshot,
    xgmi_snapshot: XgmiSnapshot,
    gpu_reading: GpuReading,
)
    ensures
        xgmi_link_snapshot@.link_id == xgmi_link_snapshot.link_id,
        xgmi_link_snapshot@.is_active == xgmi_link_snapshot.is_active,
        xgmi_link_snapshot@.speed_mbps == xgmi_link_snapshot.speed_mbps,
        xgmi_link_snapshot@.bit_rate_mbps == xgmi_link_snapshot.bit_rate_mbps,
        xgmi_link_snapshot@.remote_pci_bdf == lists::opt_text(xgmi_link_snapshot.remote_pci_bdf),
        xgmi_link_snapshot@.tx_bytes == xgmi_link_snapshot.tx_bytes,
        xgmi_link_snapshot@.rx_bytes == xgmi_link_snapshot.rx_bytes,
        xgmi_snapshot@.gpu_index == xgmi_snapshot.gpu_index,
        xgmi_snapshot@.gpu_name == xgmi_snapshot.gpu_name@,
        xgmi_snapshot@.metrics == xgmi_snapshot.metrics,
        xgmi_snapshot@.link_count == xgmi_snapshot.link_count,
        xgmi_snapshot@.link_mbps == xgmi_snapshot.link_mbps,
        xgmi_snapshot@.correctable_errors == xgmi_snapshot.correctable_errors,
        xgmi_snapshot@.uncorrectable_errors == xgmi_snapshot.uncorrectable_errors,
        xgmi_snapshot@.links == lists::views(xgmi_snapshot.links@),
        gpu_reading@.link_metrics == (match gpu_reading.link_metrics {
            Some(m) => Some((m.num_links, m.links@)),
            None => None,
            }),
        gpu_reading@.bdf == gpu_reading.bdf,
        gpu_reading@.name == lists::opt_text(gpu_reading.name),
        gpu_reading@.metrics == gpu_reading.metrics,
        gpu_reading@.bit_rate_mbps == gpu_reading.bit_rate_mbps,
        gpu_reading@.bandwidth_mbps == gpu_reading.bandwidth_mbps,
        gpu_reading@.correctable_errors == gpu_reading.correctable_errors,
        gpu_reading@.uncorrectable_errors == gpu_reading.uncorrectable_errors,
        gpu_reading@.peers == gpu_reading.peers@,
{
}

/// An address is written as domain, bus, device and function in hexadecimal.
pub proof fn law_address_is_split(domain: u64, bus: u64, device: u64, function: u64)
    requires
        domain < 0x1_0000_0000_0000,
        bus < 0x100,
        device < 32,
        function < 8,
    ensures
        bdf_text((domain * 0x1_0000 + bus * 0x100 + device * 8 + function) as u64)
            == text::padded_left(text::hexadecimal(domain as nat), '0', 4) + seq![':']
            + text::padded_left(text::hexadecimal(bus as nat), '0', 2) + seq![':']
            + text::padded_left(text::hexadecimal(device as nat), '0', 2) + seq!['.']
            + text::hexadecimal(function as nat),
{
    lemma_split_address(domain as int, bus as int, device as int, function as int);
}

proof fn lemma_split_address(domain: int, bus: int, device: int, function: int)
    requires
        0 <= domain,
        0 <= bus < 0x100,
        0 <= device < 32,
        0 <= function < 8,
    ensures
        ({
            let b = domain * 0x1_0000 + bus * 0x100 + device * 8 + function;
            &&& b / 0x1_0000 == domain
            &&& b / 0x100 % 0x100 == bus
            &&& b / 8 % 32 == device
            &&& b % 8 == function
        }),
{
    let b = domain * 0x1_0000 + bus * 0x100 + device * 8 + function;
    assert(b / 0x100 == domain * 0x100 + bus);
    assert(b / 8 == domain * 0x2000 + bus * 32 + device);
    assert(b / 8 == (domain * 0x100 + bus) * 32 + device);
}

/// A GPU is named by its text without the white space round it, and a blank name
/// is none.
pub proof fn law_blank_name_is_none(decoded: Seq<char>)
    ensures
        text::trimmed(decoded).len() == 0 ==> shown_name(decoded) is None,
        text::trimmed(decoded).len() > 0 ==> shown_name(decoded) == Some(text::trimmed(decoded)),
{
}

/// A name is what stands before the first zero byte, and no more than 255 bytes.
pub proof fn law_name_ends_at_zero(name: Seq<u8>, rest: Seq<u8>)
    requires
        forall|i: int| 0 <= i < name.len() ==> #[trigger] name[i] != 0,
        name.len() < 255,
    ensures
        name_bytes(name + seq![0u8] + rest) == name,
        name_bytes(name) == name,
{
    let buffer = name + seq![0u8] + rest;
    let end: int = if buffer.len() < 255 {
        buffer.len() as int
    } else {
        255
    };
    let left = rest.take(end - name.len() - 1);
    assert(buffer.take(end) =~= name + seq![0u8] + left);
    netlink::law_text_ends_at_the_first_zero(name, left);
    assert(name.take(name.len() as int) =~= name);
}

/// Correctable errors are counted apart from uncorrectable ones, and neither is
/// known where the reading failed.
pub proof fn law_errors_are_kept_apart(rc: u32, ec: ErrorCount)
    ensures
        rc == 0 ==> errors_of(rc, ec).0 == Some(ec.correctable_count),
        rc == 0 ==> errors_of(rc, ec).1 == Some(ec.uncorrectable_count),
        rc != 0 ==> errors_of(rc, ec).0 is None && errors_of(rc, ec).1 is None,
{
}

} // verus!
