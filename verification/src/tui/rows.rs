//! Rows of the throughput table: one for each RDMA port and each GPU.

use vstd::prelude::*;

use crate::gpu::GpuMetrics;
use crate::lists;
use crate::metrics;
use crate::metrics::{CounterRate, CounterRateView, Mean, MeanView, Rate};
use crate::nvlink;
use crate::nvlink::{LinkSnapshot, LinkSnapshotView, NvLinkSnapshot, NvLinkSnapshotView};
use crate::stat;
use crate::stat::{PortStat, PortStatView};
use crate::text;
use crate::tui::columns::DeviceClass;
use crate::xgmi;
use crate::xgmi::{XgmiLinkSnapshot, XgmiLinkSnapshotView, XgmiSnapshot, XgmiSnapshotView};

verus! {

/// An NVLink with the bytes it moved since the sample before; a counter that
/// the sample does not have gives no rate.
#[derive(Debug)]
pub struct NvLinkRate {
    pub link: LinkSnapshot,
    pub tx_rate: Option<Rate>,
    pub rx_rate: Option<Rate>,
}

/// What the rate of a link holds.
pub struct NvLinkRateView {
    pub link: LinkSnapshotView,
    pub tx_rate: Option<Rate>,
    pub rx_rate: Option<Rate>,
}

impl View for NvLinkRate {
    type V = NvLinkRateView;

    open spec fn view(&self) -> NvLinkRateView {
        NvLinkRateView { link: self.link@, tx_rate: self.tx_rate, rx_rate: self.rx_rate }
    }
}

impl Clone for NvLinkRate {
    fn clone(&self) -> (r: Self)
        ensures
            r@ == self@,
    {
        NvLinkRate { link: self.link.clone(), tx_rate: self.tx_rate, rx_rate: self.rx_rate }
    }
}

/// An XGMI link with the bytes it moved since the sample before.
#[derive(Debug)]
pub struct XgmiLinkRate {
    pub link: XgmiLinkSnapshot,
    pub tx_rate: Option<Rate>,
    pub rx_rate: Option<Rate>,
}

/// What the rate of a link holds.
pub struct XgmiLinkRateView {
    pub link: XgmiLinkSnapshotView,
    pub tx_rate: Option<Rate>,
    pub rx_rate: Option<Rate>,
}

impl View for XgmiLinkRate {
    type V = XgmiLinkRateView;

    open spec fn view(&self) -> XgmiLinkRateView {
        XgmiLinkRateView { link: self.link@, tx_rate: self.tx_rate, rx_rate: self.rx_rate }
    }
}

impl Clone for XgmiLinkRate {
    fn clone(&self) -> (r: Self)
        ensures
            r@ == self@,
    {
        XgmiLinkRate { link: self.link.clone(), tx_rate: self.tx_rate, rx_rate: self.rx_rate }
    }
}

/// Per-GPU NVLink metadata. The TUI uses this to show per-link details
/// and error counters in the detail pane.
#[derive(Debug)]
pub struct NvLinkThroughputMeta {
    /// GPU index reported by NVML.
    pub gpu_index: u32,
    /// Marketing name of the GPU (e.g. "H100").
    pub gpu_name: String,
    pub active_links: u32,
    pub links: Vec<NvLinkRate>,
    /// Live GPU health (util/vram/temp/power/clock); the utilisation goes into
    /// the history of the device.
    pub metrics: Option<GpuMetrics>,
}

/// What NVLink metadata holds.
#[verifier::ext_equal]
pub struct NvLinkMetaView {
    pub gpu_index: u32,
    pub gpu_name: Seq<char>,
    pub active_links: u32,
    pub links: Seq<NvLinkRateView>,
    pub metrics: Option<GpuMetrics>,
}

impl View for NvLinkThroughputMeta {
    type V = NvLinkMetaView;

    open spec fn view(&self) -> NvLinkMetaView {
        NvLinkMetaView {
            gpu_index: self.gpu_index,
            gpu_name: self.gpu_name@,
            active_links: self.active_links,
            links: lists::views(self.links@),
            metrics: self.metrics,
        }
    }
}

impl Clone for NvLinkThroughputMeta {
    fn clone(&self) -> (r: Self)
        ensures
            r@ == self@,
    {
        let links = self.links.clone();
        assert(lists::views(links@) =~= lists::views(self.links@));
        NvLinkThroughputMeta {
            gpu_index: self.gpu_index,
            gpu_name: self.gpu_name.clone(),
            active_links: self.active_links,
            links,
            metrics: self.metrics,
        }
    }
}

/// Per-GPU XGMI metadata. Mirrors `NvLinkThroughputMeta`.
#[derive(Debug)]
pub struct XgmiThroughputMeta {
    pub gpu_index: u32,
    /// Marketing name (e.g. "AMD Instinct MI325X").
    pub gpu_name: String,
    pub active_links: u32,
    pub links: Vec<XgmiLinkRate>,
    /// Live GPU health (util/vram/temp/power/clock); the utilisation goes into
    /// the history of the device.
    pub metrics: Option<GpuMetrics>,
}

/// What XGMI metadata holds.
#[verifier::ext_equal]
pub struct XgmiMetaView {
    pub gpu_index: u32,
    pub gpu_name: Seq<char>,
    pub active_links: u32,
    pub links: Seq<XgmiLinkRateView>,
    pub metrics: Option<GpuMetrics>,
}

impl View for XgmiThroughputMeta {
    type V = XgmiMetaView;

    open spec fn view(&self) -> XgmiMetaView {
        XgmiMetaView {
            gpu_index: self.gpu_index,
            gpu_name: self.gpu_name@,
            active_links: self.active_links,
            links: lists::views(self.links@),
            metrics: self.metrics,
        }
    }
}

impl Clone for XgmiThroughputMeta {
    fn clone(&self) -> (r: Self)
        ensures
            r@ == self@,
    {
        let links = self.links.clone();
        assert(lists::views(links@) =~= lists::views(self.links@));
        XgmiThroughputMeta {
            gpu_index: self.gpu_index,
            gpu_name: self.gpu_name.clone(),
            active_links: self.active_links,
            links,
            metrics: self.metrics,
        }
    }
}

/// Per-port computed throughput (delta / interval). Transmitted and received
/// data are in bytes per second.
#[derive(Debug)]
pub struct PortThroughput {
    pub dev_name: String,
    pub port: u32,
    /// Port line rate in Mb/s, used to scale the throughput bar.
    pub link_mbps: Option<u64>,
    pub tx_bytes: Mean,
    pub rx_bytes: Mean,
    pub tx_pkts: Mean,
    pub rx_pkts: Mean,
    pub rx_drops: Mean,
    pub counter_rates: Vec<CounterRate>,
    /// Optional override for the Port column text. Used by NVLink rows.
    pub port_label: Option<String>,
    /// NVLink metadata attached to this row.
    pub nvlink: Option<NvLinkThroughputMeta>,
    /// XGMI metadata attached to this row.
    pub xgmi: Option<XgmiThroughputMeta>,
    pub class: DeviceClass,
}

/// What a row holds.
#[verifier::ext_equal]
pub struct RowView {
    pub dev_name: Seq<char>,
    pub port: u32,
    pub link_mbps: Option<u64>,
    pub tx_bytes: MeanView,
    pub rx_bytes: MeanView,
    pub tx_pkts: MeanView,
    pub rx_pkts: MeanView,
    pub rx_drops: MeanView,
    pub counter_rates: Seq<CounterRateView>,
    pub port_label: Option<Seq<char>>,
    pub nvlink: Option<NvLinkMetaView>,
    pub xgmi: Option<XgmiMetaView>,
    pub class: DeviceClass,
}

impl View for PortThroughput {
    type V = RowView;

    open spec fn view(&self) -> RowView {
        RowView {
            dev_name: self.dev_name@,
            port: self.port,
            link_mbps: self.link_mbps,
            tx_bytes: self.tx_bytes@,
            rx_bytes: self.rx_bytes@,
            tx_pkts: self.tx_pkts@,
            rx_pkts: self.rx_pkts@,
            rx_drops: self.rx_drops@,
            counter_rates: lists::views(self.counter_rates@),
            port_label: lists::opt_text(self.port_label),
            nvlink: lists::opt_view(self.nvlink),
            xgmi: lists::opt_view(self.xgmi),
            class: self.class,
        }
    }
}

impl Clone for PortThroughput {
    fn clone(&self) -> (r: Self)
        ensures
            r@ == self@,
    {
        let counter_rates = self.counter_rates.clone();
        assert(lists::views(counter_rates@) =~= lists::views(self.counter_rates@));
        PortThroughput {
            dev_name: self.dev_name.clone(),
            port: self.port,
            link_mbps: self.link_mbps,
            tx_bytes: self.tx_bytes.clone(),
            rx_bytes: self.rx_bytes.clone(),
            tx_pkts: self.tx_pkts.clone(),
            rx_pkts: self.rx_pkts.clone(),
            rx_drops: self.rx_drops.clone(),
            counter_rates,
            port_label: lists::copy_text(&self.port_label),
            nvlink: match &self.nvlink {
                Some(m) => Some(m.clone()),
                None => None,
            },
            xgmi: match &self.xgmi {
                Some(m) => Some(m.clone()),
                None => None,
            },
            class: self.class,
        }
    }
}

/// The rate of the first counter with a name; without one nothing counts.
pub open spec fn rate_named(rates: Seq<CounterRateView>, name: Seq<char>) -> MeanView
    decreases rates.len(),
{
    if rates.len() == 0 {
        MeanView::One(metrics::no_rate())
    } else if rates[0].name == name {
        rates[0].rate
    } else {
        rate_named(rates.drop_first(), name)
    }
}

/// Looks up the rate of a counter.
pub fn rate_by_name(rates: &[CounterRate], name: &str) -> (r: Mean)
    ensures
        r@ == rate_named(lists::views(rates@), name@),
{
    let ghost all = lists::views(rates@);
    let mut i: usize = 0;
    assert(all.skip(0) =~= all);
    while i < rates.len()
        invariant
            i <= rates.len(),
            all == lists::views(rates@),
            rate_named(all, name@) == rate_named(all.skip(i as int), name@),
        decreases rates.len() - i,
    {
        assert(all.skip(i as int)[0] == rates@[i as int]@);
        if text::same(rates[i].name.as_str(), name) {
            return rates[i].rate.clone();
        }
        assert(all.skip(i as int).drop_first() =~= all.skip(i + 1));
        i += 1;
    }
    Mean::zero()
}

/// The row of one RDMA port.
pub open spec fn port_row(curr: PortStatView, prev: Option<PortStatView>, elapsed_ns: u64) -> RowView {
    let rates = metrics::rates_of(curr, prev, elapsed_ns);
    RowView {
        dev_name: curr.dev_name,
        port: curr.port,
        link_mbps: curr.link_mbps,
        tx_bytes: rate_named(rates, "tx_bytes"@),
        rx_bytes: rate_named(rates, "rx_bytes"@),
        tx_pkts: rate_named(rates, "tx_pkts"@),
        rx_pkts: rate_named(rates, "rx_pkts"@),
        rx_drops: rate_named(rates, "rx_drops"@),
        counter_rates: rates,
        port_label: None,
        nvlink: None,
        xgmi: None,
        class: DeviceClass::Rdma,
    }
}

/// Computes the row of one RDMA port.
pub fn compute_port_throughput(curr: &PortStat, prev: Option<&PortStat>, elapsed_ns: u64) -> (r:
    PortThroughput)
    ensures
        r@ == port_row(curr@, lists::opt_view(prev), elapsed_ns),
{
    let counter_rates = metrics::counter_rates(curr, prev, elapsed_ns);
    let rates = counter_rates.as_slice();
    let tx_bytes = rate_by_name(rates, "tx_bytes");
    let rx_bytes = rate_by_name(rates, "rx_bytes");
    let tx_pkts = rate_by_name(rates, "tx_pkts");
    let rx_pkts = rate_by_name(rates, "rx_pkts");
    let rx_drops = rate_by_name(rates, "rx_drops");
    PortThroughput {
        dev_name: curr.dev_name.clone(),
        port: curr.port,
        link_mbps: curr.link_mbps,
        tx_bytes,
        rx_bytes,
        tx_pkts,
        rx_pkts,
        rx_drops,
        counter_rates,
        port_label: None,
        nvlink: None,
        xgmi: None,
        class: DeviceClass::Rdma,
    }
}

/// The rows of all RDMA ports of a reading, compared with the reading before.
pub open spec fn port_rows(
    prev: Seq<PortStatView>,
    curr: Seq<PortStatView>,
    elapsed_ns: u64,
) -> Seq<RowView> {
    Seq::new(
        curr.len(),
        |i: int|
            port_row(
                curr[i],
                metrics::stat_at(prev, curr[i].dev_name, curr[i].port),
                elapsed_ns,
            ),
    )
}

/// Computes the rows of all RDMA ports.
pub fn compute_throughputs(prev: &[PortStat], curr: &[PortStat], elapsed_ns: u64) -> (r: Vec<
    PortThroughput,
>)
    ensures
        lists::views(r@) == port_rows(lists::views(prev@), lists::views(curr@), elapsed_ns),
{
    let ghost goal = port_rows(lists::views(prev@), lists::views(curr@), elapsed_ns);
    let mut out: Vec<PortThroughput> = Vec::new();
    let mut i: usize = 0;
    assert(lists::views(out@) =~= goal.take(0));
    while i < curr.len()
        invariant
            i <= curr.len(),
            goal == port_rows(lists::views(prev@), lists::views(curr@), elapsed_ns),
            lists::views(out@) == goal.take(i as int),
        decreases curr.len() - i,
    {
        let c = &curr[i];
        let row = compute_port_throughput(
            c,
            metrics::find_prev(prev, c.dev_name.as_str(), c.port),
            elapsed_ns,
        );
        proof {
            lists::lemma_views_push(out@, row);
            text::lemma_take_step(goal, i as int);
            assert(lists::views(curr@)[i as int] == c@);
        }
        out.push(row);
        i += 1;
    }
    assert(goal.take(goal.len() as int) =~= goal);
    out
}

/// The change of a counter that both samples have; otherwise none, since a
/// counter that comes back after a gap would be compared with nothing.
pub open spec fn both_delta(curr: Option<u64>, prev: Option<u64>) -> u64 {
    match (curr, prev) {
        (Some(c), Some(p)) => metrics::advance(c, p),
        _ => 0,
    }
}

fn delta_of(curr: Option<u64>, prev: Option<u64>) -> (r: u64)
    ensures
        r == both_delta(curr, prev),
{
    match (curr, prev) {
        (Some(c), Some(p)) => c.saturating_sub(p),
        _ => 0,
    }
}

/// The rate of a counter; none when the sample does not have it.
pub open spec fn link_rate(curr: Option<u64>, prev: Option<u64>, elapsed_ns: u64) -> Option<Rate> {
    match curr {
        Some(_) => Some(Rate { delta: both_delta(curr, prev), elapsed_ns }),
        None => None,
    }
}

fn rate_of_link(curr: Option<u64>, prev: Option<u64>, elapsed_ns: u64) -> (r: Option<Rate>)
    ensures
        r == link_rate(curr, prev, elapsed_ns),
{
    match curr {
        Some(_) => Some(Rate { delta: delta_of(curr, prev), elapsed_ns }),
        None => None,
    }
}

/// A counter rate of an error counter that the sample has.
pub open spec fn error_rate(
    prefix: Seq<char>,
    id: u32,
    curr: Option<u64>,
    prev: Option<u64>,
    elapsed_ns: u64,
) -> Seq<CounterRateView> {
    match curr {
        Some(v) => seq![
            CounterRateView {
                name: prefix + text::decimal(id as nat),
                value: v,
                delta: both_delta(curr, prev),
                rate: MeanView::One(Rate { delta: both_delta(curr, prev), elapsed_ns }),
                is_bytes: false,
            },
        ],
        None => seq![],
    }
}

fn push_error_rate(
    out: &mut Vec<CounterRate>,
    prefix: &str,
    id: u32,
    curr: Option<u64>,
    prev: Option<u64>,
    elapsed_ns: u64,
)
    ensures
        lists::views(final(out)@) == lists::views(old(out)@) + error_rate(
            prefix@,
            id,
            curr,
            prev,
            elapsed_ns,
        ),
{
    if let Some(v) = curr {
        let d: u64 = delta_of(curr, prev);
        let mut name = prefix.to_owned();
        name.append(text::decimal_u64(id as u64).as_str());
        let rate = CounterRate {
            name,
            value: v,
            delta: d,
            rate: Mean::of(d, elapsed_ns),
            is_bytes: false,
        };
        proof {
            lists::lemma_views_push(out@, rate);
        }
        out.push(rate);
    }
    assert(lists::views(out@) =~= lists::views(old(out)@) + error_rate(
        prefix@,
        id,
        curr,
        prev,
        elapsed_ns,
    ));
}

/// The first snapshot of a GPU.
pub open spec fn nv_gpu_at(prev: Seq<NvLinkSnapshotView>, gpu_index: u32) -> Option<
    NvLinkSnapshotView,
>
    decreases prev.len(),
{
    if prev.len() == 0 {
        None
    } else if prev[0].gpu_index == gpu_index {
        Some(prev[0])
    } else {
        nv_gpu_at(prev.drop_first(), gpu_index)
    }
}

fn find_nv_gpu<'a>(prev: &'a [NvLinkSnapshot], gpu_index: u32) -> (r: Option<&'a NvLinkSnapshot>)
    ensures
        lists::opt_view(r) == nv_gpu_at(lists::views(prev@), gpu_index),
{
    let ghost all = lists::views(prev@);
    let mut i: usize = 0;
    assert(all.skip(0) =~= all);
    while i < prev.len()
        invariant
            i <= prev.len(),
            all == lists::views(prev@),
            nv_gpu_at(all, gpu_index) == nv_gpu_at(all.skip(i as int), gpu_index),
        decreases prev.len() - i,
    {
        assert(all.skip(i as int)[0] == prev@[i as int]@);
        if prev[i].gpu_index == gpu_index {
            return Some(&prev[i]);
        }
        assert(all.skip(i as int).drop_first() =~= all.skip(i + 1));
        i += 1;
    }
    None
}

/// The first link with a number.
pub open spec fn nv_link_at(links: Seq<LinkSnapshotView>, link_id: u32) -> Option<LinkSnapshotView>
    decreases links.len(),
{
    if links.len() == 0 {
        None
    } else if links[0].link_id == link_id {
        Some(links[0])
    } else {
        nv_link_at(links.drop_first(), link_id)
    }
}

/// The link of a GPU with a number, where the GPU was sampled.
pub open spec fn nv_prev_link(gpu: Option<NvLinkSnapshotView>, link_id: u32) -> Option<
    LinkSnapshotView,
> {
    match gpu {
        Some(g) => nv_link_at(g.links, link_id),
        None => None,
    }
}

fn find_nv_link<'a>(gpu: Option<&'a NvLinkSnapshot>, link_id: u32) -> (r: Option<&'a LinkSnapshot>)
    ensures
        lists::opt_view(r) == nv_prev_link(lists::opt_view(gpu), link_id),
{
    let g = match gpu {
        Some(g) => g,
        None => {
            return None;
        },
    };
    let ghost all = lists::views(g.links@);
    let mut i: usize = 0;
    assert(all.skip(0) =~= all);
    while i < g.links.len()
        invariant
            i <= g.links.len(),
            gpu == Some(g),
            all == lists::views(g.links@),
            nv_link_at(all, link_id) == nv_link_at(all.skip(i as int), link_id),
        decreases g.links.len() - i,
    {
        assert(all.skip(i as int)[0] == g.links@[i as int]@);
        if g.links[i].link_id == link_id {
            return Some(&g.links[i]);
        }
        assert(all.skip(i as int).drop_first() =~= all.skip(i + 1));
        i += 1;
    }
    None
}

/// The first active link, or else the first link.
pub open spec fn aggregate_link(links: Seq<LinkSnapshotView>) -> Option<LinkSnapshotView> {
    match first_active(links) {
        Some(l) => Some(l),
        None => if links.len() > 0 {
            Some(links[0])
        } else {
            None
        },
    }
}

/// The first active link.
pub open spec fn first_active(links: Seq<LinkSnapshotView>) -> Option<LinkSnapshotView>
    decreases links.len(),
{
    if links.len() == 0 {
        None
    } else if links[0].is_active {
        Some(links[0])
    } else {
        first_active(links.drop_first())
    }
}

fn find_aggregate_link<'a>(links: &'a [LinkSnapshot]) -> (r: Option<&'a LinkSnapshot>)
    ensures
        lists::opt_view(r) == aggregate_link(lists::views(links@)),
{
    let ghost all = lists::views(links@);
    let mut i: usize = 0;
    assert(all.skip(0) =~= all);
    while i < links.len()
        invariant
            i <= links.len(),
            all == lists::views(links@),
            first_active(all) == first_active(all.skip(i as int)),
        decreases links.len() - i,
    {
        assert(all.skip(i as int)[0] == links@[i as int]@);
        if links[i].is_active {
            return Some(&links[i]);
        }
        assert(all.skip(i as int).drop_first() =~= all.skip(i + 1));
        i += 1;
    }
    if links.len() > 0 {
        Some(&links[0])
    } else {
        None
    }
}

/// Transmitted and received bytes of a GPU since the sample before.
///
/// The aggregate counters of the GPU are taken where the sample has one of
/// them. Otherwise the counters of a single link stand for the whole GPU,
/// since the driver reports the aggregate on every link: adding links up would
/// multiply it.
pub open spec fn nv_totals(gpu: NvLinkSnapshotView, prev: Option<NvLinkSnapshotView>) -> (u64, u64) {
    if gpu.tx_bytes is Some || gpu.rx_bytes is Some {
        match prev {
            Some(p) => (both_delta(gpu.tx_bytes, p.tx_bytes), both_delta(gpu.rx_bytes, p.rx_bytes)),
            None => (0, 0),
        }
    } else {
        match aggregate_link(gpu.links) {
            Some(link) => match nv_prev_link(prev, link.link_id) {
                Some(l) => (
                    both_delta(link.tx_bytes, l.tx_bytes),
                    both_delta(link.rx_bytes, l.rx_bytes),
                ),
                None => (0, 0),
            },
            None => (0, 0),
        }
    }
}

fn sum_nv_gpu(gpu: &NvLinkSnapshot, prev: Option<&NvLinkSnapshot>) -> (r: (u64, u64))
    ensures
        r == nv_totals(gpu@, lists::opt_view(prev)),
{
    if gpu.tx_bytes.is_some() || gpu.rx_bytes.is_some() {
        match prev {
            Some(p) => (delta_of(gpu.tx_bytes, p.tx_bytes), delta_of(gpu.rx_bytes, p.rx_bytes)),
            None => (0, 0),
        }
    } else {
        match find_aggregate_link(gpu.links.as_slice()) {
            Some(link) => match find_nv_link(prev, link.link_id) {
                Some(l) => (
                    delta_of(link.tx_bytes, l.tx_bytes),
                    delta_of(link.rx_bytes, l.rx_bytes),
                ),
                None => (0, 0),
            },
            None => (0, 0),
        }
    }
}

/// A link with its rates.
pub open spec fn nv_link_rate(
    link: LinkSnapshotView,
    prev: Option<LinkSnapshotView>,
    elapsed_ns: u64,
) -> NvLinkRateView {
    NvLinkRateView {
        link,
        tx_rate: link_rate(
            link.tx_bytes,
            match prev {
                Some(l) => l.tx_bytes,
                None => None,
            },
            elapsed_ns,
        ),
        rx_rate: link_rate(
            link.rx_bytes,
            match prev {
                Some(l) => l.rx_bytes,
                None => None,
            },
            elapsed_ns,
        ),
    }
}

/// All links of a GPU with their rates.
pub open spec fn nv_link_rates(
    gpu: NvLinkSnapshotView,
    prev: Option<NvLinkSnapshotView>,
    elapsed_ns: u64,
) -> Seq<NvLinkRateView> {
    Seq::new(
        gpu.links.len(),
        |i: int|
            nv_link_rate(gpu.links[i], nv_prev_link(prev, gpu.links[i].link_id), elapsed_ns),
    )
}

fn build_nv_links(gpu: &NvLinkSnapshot, prev: Option<&NvLinkSnapshot>, elapsed_ns: u64) -> (r: Vec<
    NvLinkRate,
>)
    ensures
        lists::views(r@) == nv_link_rates(gpu@, lists::opt_view(prev), elapsed_ns),
{
    let ghost goal = nv_link_rates(gpu@, lists::opt_view(prev), elapsed_ns);
    let mut out: Vec<NvLinkRate> = Vec::new();
    let mut i: usize = 0;
    assert(lists::views(out@) =~= goal.take(0));
    while i < gpu.links.len()
        invariant
            i <= gpu.links.len(),
            goal == nv_link_rates(gpu@, lists::opt_view(prev), elapsed_ns),
            lists::views(out@) == goal.take(i as int),
        decreases gpu.links.len() - i,
    {
        let link = &gpu.links[i];
        assert(gpu@.links[i as int] == link@);
        let (prev_tx, prev_rx) = match find_nv_link(prev, link.link_id) {
            Some(l) => (l.tx_bytes, l.rx_bytes),
            None => (None, None),
        };
        let rate = NvLinkRate {
            link: link.clone(),
            tx_rate: rate_of_link(link.tx_bytes, prev_tx, elapsed_ns),
            rx_rate: rate_of_link(link.rx_bytes, prev_rx, elapsed_ns),
        };
        proof {
            lists::lemma_views_push(out@, rate);
            text::lemma_take_step(goal, i as int);
            assert(goal[i as int] == rate@);
        }
        out.push(rate);
        i += 1;
    }
    assert(goal.take(goal.len() as int) =~= goal);
    out
}

/// The error counters of one link.
pub open spec fn nv_link_errors(
    link: LinkSnapshotView,
    prev: Option<LinkSnapshotView>,
    elapsed_ns: u64,
) -> Seq<CounterRateView> {
    error_rate(
        "nvlink_crc_l"@,
        link.link_id,
        link.crc_error_count,
        match prev {
            Some(l) => l.crc_error_count,
            None => None,
        },
        elapsed_ns,
    ) + error_rate(
        "nvlink_replay_l"@,
        link.link_id,
        link.replay_error_count,
        match prev {
            Some(l) => l.replay_error_count,
            None => None,
        },
        elapsed_ns,
    ) + error_rate(
        "nvlink_recovery_l"@,
        link.link_id,
        link.recovery_error_count,
        match prev {
            Some(l) => l.recovery_error_count,
            None => None,
        },
        elapsed_ns,
    )
}

/// The error counters of some links, link by link.
pub open spec fn nv_errors(
    links: Seq<LinkSnapshotView>,
    prev: Option<NvLinkSnapshotView>,
    elapsed_ns: u64,
) -> Seq<CounterRateView>
    decreases links.len(),
{
    if links.len() == 0 {
        seq![]
    } else {
        nv_errors(links.drop_last(), prev, elapsed_ns) + nv_link_errors(
            links.last(),
            nv_prev_link(prev, links.last().link_id),
            elapsed_ns,
        )
    }
}

fn build_nv_errors(gpu: &NvLinkSnapshot, prev: Option<&NvLinkSnapshot>, elapsed_ns: u64) -> (r: Vec<
    CounterRate,
>)
    ensures
        lists::views(r@) == nv_errors(gpu@.links, lists::opt_view(prev), elapsed_ns),
{
    let ghost all = gpu@.links;
    let ghost pv = lists::opt_view(prev);
    let mut out: Vec<CounterRate> = Vec::new();
    let mut i: usize = 0;
    assert(lists::views(out@) =~= nv_errors(all.take(0), pv, elapsed_ns));
    while i < gpu.links.len()
        invariant
            i <= gpu.links.len(),
            all == lists::views(gpu.links@),
            pv == lists::opt_view(prev),
            lists::views(out@) == nv_errors(all.take(i as int), pv, elapsed_ns),
        decreases gpu.links.len() - i,
    {
        let link = &gpu.links[i];
        proof {
            text::lemma_take_step(all, i as int);
            assert(all[i as int] == link@);
        }
        let (crc, replay, recovery) = match find_nv_link(prev, link.link_id) {
            Some(l) => (l.crc_error_count, l.replay_error_count, l.recovery_error_count),
            None => (None, None, None),
        };
        let ghost before = lists::views(out@);
        push_error_rate(
            &mut out,
            "nvlink_crc_l",
            link.link_id,
            link.crc_error_count,
            crc,
            elapsed_ns,
        );
        push_error_rate(
            &mut out,
            "nvlink_replay_l",
            link.link_id,
            link.replay_error_count,
            replay,
            elapsed_ns,
        );
        push_error_rate(
            &mut out,
            "nvlink_recovery_l",
            link.link_id,
            link.recovery_error_count,
            recovery,
            elapsed_ns,
        );
        assert(lists::views(out@) =~= before + nv_link_errors(
            link@,
            nv_prev_link(pv, link.link_id),
            elapsed_ns,
        ));
        i += 1;
    }
    assert(all.take(all.len() as int) =~= all);
    out
}

/// Active and present links as shown in the port column.
pub open spec fn links_label(active: u32, link_count: u32) -> Seq<char> {
    text::decimal(active as nat) + seq!['/'] + text::decimal(link_count as nat)
}

fn label_links(active: u32, link_count: u32) -> (r: String)
    ensures
        r@ == links_label(active, link_count),
{
    let mut out = text::decimal_u64(active as u64);
    out.push('/');
    out.append(text::decimal_u64(link_count as u64).as_str());
    assert(out@ =~= links_label(active, link_count));
    out
}

/// A device name made of a prefix and an index.
pub open spec fn indexed_name(prefix: Seq<char>, idx: u32) -> Seq<char> {
    prefix + text::decimal(idx as nat)
}

fn name_device(prefix: &str, idx: u32) -> (r: String)
    ensures
        r@ == indexed_name(prefix@, idx),
{
    let mut out = prefix.to_owned();
    out.append(text::decimal_u64(idx as u64).as_str());
    out
}

/// The row of one NVIDIA GPU.
pub open spec fn nv_row(
    gpu: NvLinkSnapshotView,
    prev: Option<NvLinkSnapshotView>,
    elapsed_ns: u64,
) -> RowView {
    let totals = nv_totals(gpu, prev);
    let active = (nvlink::active_count(gpu.links) % 0x1_0000_0000) as u32;
    RowView {
        dev_name: indexed_name("nvidia"@, gpu.gpu_index),
        port: active,
        link_mbps: gpu.link_mbps,
        tx_bytes: MeanView::One(Rate { delta: totals.0, elapsed_ns }),
        rx_bytes: MeanView::One(Rate { delta: totals.1, elapsed_ns }),
        tx_pkts: MeanView::One(metrics::no_rate()),
        rx_pkts: MeanView::One(metrics::no_rate()),
        rx_drops: MeanView::One(metrics::no_rate()),
        counter_rates: nv_errors(gpu.links, prev, elapsed_ns),
        port_label: Some(links_label(active, gpu.link_count)),
        nvlink: Some(
            NvLinkMetaView {
                gpu_index: gpu.gpu_index,
                gpu_name: gpu.gpu_name,
                active_links: active,
                links: nv_link_rates(gpu, prev, elapsed_ns),
                metrics: gpu.metrics,
            },
        ),
        xgmi: None,
        class: DeviceClass::Nvlink,
    }
}

/// The rows of all NVIDIA GPUs of a sample, compared with the sample before.
pub open spec fn nv_rows(
    prev: Seq<NvLinkSnapshotView>,
    curr: Seq<NvLinkSnapshotView>,
    elapsed_ns: u64,
) -> Seq<RowView> {
    Seq::new(
        curr.len(),
        |i: int| nv_row(curr[i], nv_gpu_at(prev, curr[i].gpu_index), elapsed_ns),
    )
}

fn compute_nv_row(gpu: &NvLinkSnapshot, prev: Option<&NvLinkSnapshot>, elapsed_ns: u64) -> (r:
    PortThroughput)
    ensures
        r@ == nv_row(gpu@, lists::opt_view(prev), elapsed_ns),
{
    let (tx_total, rx_total) = sum_nv_gpu(gpu, prev);
    let links = build_nv_links(gpu, prev, elapsed_ns);
    let counter_rates = build_nv_errors(gpu, prev, elapsed_ns);
    let active: u32 = gpu.active_links();
    PortThroughput {
        dev_name: name_device("nvidia", gpu.gpu_index),
        port: active,
        link_mbps: gpu.link_mbps,
        tx_bytes: Mean::of(tx_total, elapsed_ns),
        rx_bytes: Mean::of(rx_total, elapsed_ns),
        tx_pkts: Mean::zero(),
        rx_pkts: Mean::zero(),
        rx_drops: Mean::zero(),
        counter_rates,
        port_label: Some(label_links(active, gpu.link_count)),
        nvlink: Some(
            NvLinkThroughputMeta {
                gpu_index: gpu.gpu_index,
                gpu_name: gpu.gpu_name.clone(),
                active_links: active,
                links,
                metrics: gpu.metrics,
            },
        ),
        xgmi: None,
        class: DeviceClass::Nvlink,
    }
}

/// Computes one row per GPU from a pair of NVLink samples.
///
/// The sample before is looked up by `gpu_index`. A GPU, link, or counter
/// without a prior sample has moved nothing: the counters are cumulative since
/// the driver was loaded, so comparing them with zero would show a spike.
pub fn compute_nvlink_throughputs(
    prev: &[NvLinkSnapshot],
    curr: &[NvLinkSnapshot],
    elapsed_ns: u64,
) -> (r: Vec<PortThroughput>)
    ensures
        lists::views(r@) == nv_rows(lists::views(prev@), lists::views(curr@), elapsed_ns),
{
    let ghost goal = nv_rows(lists::views(prev@), lists::views(curr@), elapsed_ns);
    let mut out: Vec<PortThroughput> = Vec::new();
    let mut i: usize = 0;
    assert(lists::views(out@) =~= goal.take(0));
    while i < curr.len()
        invariant
            i <= curr.len(),
            goal == nv_rows(lists::views(prev@), lists::views(curr@), elapsed_ns),
            lists::views(out@) == goal.take(i as int),
        decreases curr.len() - i,
    {
        let gpu = &curr[i];
        let row = compute_nv_row(gpu, find_nv_gpu(prev, gpu.gpu_index), elapsed_ns);
        proof {
            lists::lemma_views_push(out@, row);
            text::lemma_take_step(goal, i as int);
            assert(lists::views(curr@)[i as int] == gpu@);
        }
        out.push(row);
        i += 1;
    }
    assert(goal.take(goal.len() as int) =~= goal);
    out
}

/// The first snapshot of a GPU.
pub open spec fn xgmi_gpu_at(prev: Seq<XgmiSnapshotView>, gpu_index: u32) -> Option<
    XgmiSnapshotView,
>
    decreases prev.len(),
{
    if prev.len() == 0 {
        None
    } else if prev[0].gpu_index == gpu_index {
        Some(prev[0])
    } else {
        xgmi_gpu_at(prev.drop_first(), gpu_index)
    }
}

fn find_xgmi_gpu<'a>(prev: &'a [XgmiSnapshot], gpu_index: u32) -> (r: Option<&'a XgmiSnapshot>)
    ensures
        lists::opt_view(r) == xgmi_gpu_at(lists::views(prev@), gpu_index),
{
    let ghost all = lists::views(prev@);
    let mut i: usize = 0;
    assert(all.skip(0) =~= all);
    while i < prev.len()
        invariant
            i <= prev.len(),
            all == lists::views(prev@),
            xgmi_gpu_at(all, gpu_index) == xgmi_gpu_at(all.skip(i as int), gpu_index),
        decreases prev.len() - i,
    {
        assert(all.skip(i as int)[0] == prev@[i as int]@);
        if prev[i].gpu_index == gpu_index {
            return Some(&prev[i]);
        }
        assert(all.skip(i as int).drop_first() =~= all.skip(i + 1));
        i += 1;
    }
    None
}

/// The first link with a number.
pub open spec fn xgmi_link_at(links: Seq<XgmiLinkSnapshotView>, link_id: u32) -> Option<
    XgmiLinkSnapshotView,
>
    decreases links.len(),
{
    if links.len() == 0 {
        None
    } else if links[0].link_id == link_id {
        Some(links[0])
    } else {
        xgmi_link_at(links.drop_first(), link_id)
    }
}

/// The link of a GPU with a number, where the GPU was sampled.
pub open spec fn xgmi_prev_link(gpu: Option<XgmiSnapshotView>, link_id: u32) -> Option<
    XgmiLinkSnapshotView,
> {
    match gpu {
        Some(g) => xgmi_link_at(g.links, link_id),
        None => None,
    }
}

fn find_xgmi_link<'a>(gpu: Option<&'a XgmiSnapshot>, link_id: u32) -> (r: Option<
    &'a XgmiLinkSnapshot,
>)
    ensures
        lists::opt_view(r) == xgmi_prev_link(lists::opt_view(gpu), link_id),
{
    let g = match gpu {
        Some(g) => g,
        None => {
            return None;
        },
    };
    let ghost all = lists::views(g.links@);
    let mut i: usize = 0;
    assert(all.skip(0) =~= all);
    while i < g.links.len()
        invariant
            i <= g.links.len(),
            gpu == Some(g),
            all == lists::views(g.links@),
            xgmi_link_at(all, link_id) == xgmi_link_at(all.skip(i as int), link_id),
        decreases g.links.len() - i,
    {
        assert(all.skip(i as int)[0] == g.links@[i as int]@);
        if g.links[i].link_id == link_id {
            return Some(&g.links[i]);
        }
        assert(all.skip(i as int).drop_first() =~= all.skip(i + 1));
        i += 1;
    }
    None
}

/// A link with its rates.
pub open spec fn xgmi_link_rate(
    link: XgmiLinkSnapshotView,
    prev: Option<XgmiLinkSnapshotView>,
    elapsed_ns: u64,
) -> XgmiLinkRateView {
    XgmiLinkRateView {
        link,
        tx_rate: link_rate(
            link.tx_bytes,
            match prev {
                Some(l) => l.tx_bytes,
                None => None,
            },
            elapsed_ns,
        ),
        rx_rate: link_rate(
            link.rx_bytes,
            match prev {
                Some(l) => l.rx_bytes,
                None => None,
            },
            elapsed_ns,
        ),
    }
}

/// Some links with their rates.
pub open spec fn xgmi_link_rates(
    links: Seq<XgmiLinkSnapshotView>,
    prev: Option<XgmiSnapshotView>,
    elapsed_ns: u64,
) -> Seq<XgmiLinkRateView> {
    Seq::new(
        links.len(),
        |i: int| xgmi_link_rate(links[i], xgmi_prev_link(prev, links[i].link_id), elapsed_ns),
    )
}

/// The counts of a rate; none counts nothing.
pub open spec fn rate_delta(r: Option<Rate>) -> int {
    match r {
        Some(x) => x.delta as int,
        None => 0,
    }
}

/// The bytes that links transmitted together, up to what 64 bits hold.
pub open spec fn tx_sum(rates: Seq<XgmiLinkRateView>) -> int
    decreases rates.len(),
{
    if rates.len() == 0 {
        0
    } else {
        let sum = tx_sum(rates.drop_last()) + rate_delta(rates.last().tx_rate);
        if sum > u64::MAX {
            u64::MAX as int
        } else {
            sum
        }
    }
}

/// The bytes that links received together, up to what 64 bits hold.
pub open spec fn rx_sum(rates: Seq<XgmiLinkRateView>) -> int
    decreases rates.len(),
{
    if rates.len() == 0 {
        0
    } else {
        let sum = rx_sum(rates.drop_last()) + rate_delta(rates.last().rx_rate);
        if sum > u64::MAX {
            u64::MAX as int
        } else {
            sum
        }
    }
}

/// The error counters of a GPU.
pub open spec fn xgmi_errors(
    gpu: XgmiSnapshotView,
    prev: Option<XgmiSnapshotView>,
    elapsed_ns: u64,
) -> Seq<CounterRateView> {
    wafl_rate(
        "xgmi_wafl_ce"@,
        gpu.correctable_errors,
        match prev {
            Some(p) => p.correctable_errors,
            None => None,
        },
        elapsed_ns,
    ) + wafl_rate(
        "xgmi_wafl_ue"@,
        gpu.uncorrectable_errors,
        match prev {
            Some(p) => p.uncorrectable_errors,
            None => None,
        },
        elapsed_ns,
    )
}

/// A counter rate of an error counter that the sample has. The total is kept
/// where the sample before does not have it, with no change.
pub open spec fn wafl_rate(
    name: Seq<char>,
    curr: Option<u64>,
    prev: Option<u64>,
    elapsed_ns: u64,
) -> Seq<CounterRateView> {
    match curr {
        Some(v) => seq![
            CounterRateView {
                name,
                value: v,
                delta: both_delta(curr, prev),
                rate: MeanView::One(Rate { delta: both_delta(curr, prev), elapsed_ns }),
                is_bytes: false,
            },
        ],
        None => seq![],
    }
}

fn push_wafl_rate(
    out: &mut Vec<CounterRate>,
    name: &str,
    curr: Option<u64>,
    prev: Option<u64>,
    elapsed_ns: u64,
)
    ensures
        lists::views(final(out)@) == lists::views(old(out)@) + wafl_rate(
            name@,
            curr,
            prev,
            elapsed_ns,
        ),
{
    if let Some(v) = curr {
        let d: u64 = delta_of(curr, prev);
        let rate = CounterRate {
            name: name.to_owned(),
            value: v,
            delta: d,
            rate: Mean::of(d, elapsed_ns),
            is_bytes: false,
        };
        proof {
            lists::lemma_views_push(out@, rate);
        }
        out.push(rate);
    }
    assert(lists::views(out@) =~= lists::views(old(out)@) + wafl_rate(
        name@,
        curr,
        prev,
        elapsed_ns,
    ));
}

/// The row of one AMD GPU. The accumulators are true per-link counters, so the
/// totals of the GPU are the sums over its links.
pub open spec fn xgmi_row(
    gpu: XgmiSnapshotView,
    prev: Option<XgmiSnapshotView>,
    elapsed_ns: u64,
) -> RowView {
    let rates = xgmi_link_rates(gpu.links, prev, elapsed_ns);
    let active = (xgmi::active_count(gpu.links) % 0x1_0000_0000) as u32;
    RowView {
        dev_name: indexed_name("amdgpu"@, gpu.gpu_index),
        port: active,
        link_mbps: gpu.link_mbps,
        tx_bytes: MeanView::One(Rate { delta: tx_sum(rates) as u64, elapsed_ns }),
        rx_bytes: MeanView::One(Rate { delta: rx_sum(rates) as u64, elapsed_ns }),
        tx_pkts: MeanView::One(metrics::no_rate()),
        rx_pkts: MeanView::One(metrics::no_rate()),
        rx_drops: MeanView::One(metrics::no_rate()),
        counter_rates: xgmi_errors(gpu, prev, elapsed_ns),
        port_label: Some(links_label(active, gpu.link_count)),
        nvlink: None,
        xgmi: Some(
            XgmiMetaView {
                gpu_index: gpu.gpu_index,
                gpu_name: gpu.gpu_name,
                active_links: active,
                links: rates,
                metrics: gpu.metrics,
            },
        ),
        class: DeviceClass::Xgmi,
    }
}

/// The rows of all AMD GPUs of a sample, compared with the sample before.
pub open spec fn xgmi_rows(
    prev: Seq<XgmiSnapshotView>,
    curr: Seq<XgmiSnapshotView>,
    elapsed_ns: u64,
) -> Seq<RowView> {
    Seq::new(
        curr.len(),
        |i: int| xgmi_row(curr[i], xgmi_gpu_at(prev, curr[i].gpu_index), elapsed_ns),
    )
}

fn compute_xgmi_row(gpu: &XgmiSnapshot, prev: Option<&XgmiSnapshot>, elapsed_ns: u64) -> (r:
    PortThroughput)
    ensures
        r@ == xgmi_row(gpu@, lists::opt_view(prev), elapsed_ns),
{
    let ghost pv = lists::opt_view(prev);
    let ghost goal = xgmi_link_rates(gpu@.links, pv, elapsed_ns);
    let mut tx_total: u64 = 0;
    let mut rx_total: u64 = 0;
    let mut links: Vec<XgmiLinkRate> = Vec::new();
    let mut i: usize = 0;
    assert(lists::views(links@) =~= goal.take(0));
    while i < gpu.links.len()
        invariant
            i <= gpu.links.len(),
            pv == lists::opt_view(prev),
            goal == xgmi_link_rates(gpu@.links, pv, elapsed_ns),
            lists::views(links@) == goal.take(i as int),
            tx_total == tx_sum(goal.take(i as int)),
            rx_total == rx_sum(goal.take(i as int)),
        decreases gpu.links.len() - i,
    {
        let link = &gpu.links[i];
        assert(gpu@.links[i as int] == link@);
        let (prev_tx, prev_rx) = match find_xgmi_link(prev, link.link_id) {
            Some(l) => (l.tx_bytes, l.rx_bytes),
            None => (None, None),
        };
        let tx_delta: u64 = delta_of(link.tx_bytes, prev_tx);
        let rx_delta: u64 = delta_of(link.rx_bytes, prev_rx);
        tx_total = tx_total.saturating_add(tx_delta);
        rx_total = rx_total.saturating_add(rx_delta);
        let rate = XgmiLinkRate {
            link: link.clone(),
            tx_rate: rate_of_link(link.tx_bytes, prev_tx, elapsed_ns),
            rx_rate: rate_of_link(link.rx_bytes, prev_rx, elapsed_ns),
        };
        proof {
            lists::lemma_views_push(links@, rate);
            text::lemma_take_step(goal, i as int);
            assert(goal[i as int] == rate@);
        }
        links.push(rate);
        i += 1;
    }
    assert(goal.take(goal.len() as int) =~= goal);
    let (prev_ce, prev_ue) = match prev {
        Some(p) => (p.correctable_errors, p.uncorrectable_errors),
        None => (None, None),
    };
    let mut counter_rates: Vec<CounterRate> = Vec::new();
    push_wafl_rate(&mut counter_rates, "xgmi_wafl_ce", gpu.correctable_errors, prev_ce, elapsed_ns);
    push_wafl_rate(
        &mut counter_rates,
        "xgmi_wafl_ue",
        gpu.uncorrectable_errors,
        prev_ue,
        elapsed_ns,
    );
    assert(lists::views(counter_rates@) =~= xgmi_errors(gpu@, pv, elapsed_ns));
    let active: u32 = gpu.active_links();
    PortThroughput {
        dev_name: name_device("amdgpu", gpu.gpu_index),
        port: active,
        link_mbps: gpu.link_mbps,
        tx_bytes: Mean::of(tx_total, elapsed_ns),
        rx_bytes: Mean::of(rx_total, elapsed_ns),
        tx_pkts: Mean::zero(),
        rx_pkts: Mean::zero(),
        rx_drops: Mean::zero(),
        counter_rates,
        port_label: Some(label_links(active, gpu.link_count)),
        nvlink: None,
        xgmi: Some(
            XgmiThroughputMeta {
                gpu_index: gpu.gpu_index,
                gpu_name: gpu.gpu_name.clone(),
                active_links: active,
                links,
                metrics: gpu.metrics,
            },
        ),
        class: DeviceClass::Xgmi,
    }
}

/// Computes one row per GPU from a pair of XGMI samples.
pub fn compute_xgmi_throughputs(
    prev: &[XgmiSnapshot],
    curr: &[XgmiSnapshot],
    elapsed_ns: u64,
) -> (r: Vec<PortThroughput>)
    ensures
        lists::views(r@) == xgmi_rows(lists::views(prev@), lists::views(curr@), elapsed_ns),
{
    let ghost goal = xgmi_rows(lists::views(prev@), lists::views(curr@), elapsed_ns);
    let mut out: Vec<PortThroughput> = Vec::new();
    let mut i: usize = 0;
    assert(lists::views(out@) =~= goal.take(0));
    while i < curr.len()
        invariant
            i <= curr.len(),
            goal == xgmi_rows(lists::views(prev@), lists::views(curr@), elapsed_ns),
            lists::views(out@) == goal.take(i as int),
        decreases curr.len() - i,
    {
        let gpu = &curr[i];
        let row = compute_xgmi_row(gpu, find_xgmi_gpu(prev, gpu.gpu_index), elapsed_ns);
        proof {
            lists::lemma_views_push(out@, row);
            text::lemma_take_step(goal, i as int);
            assert(lists::views(curr@)[i as int] == gpu@);
        }
        out.push(row);
        i += 1;
    }
    assert(goal.take(goal.len() as int) =~= goal);
    out
}

/// The identity of a row across refreshes. GPU rows go by their name alone,
/// because their port is the number of active links, which can change.
pub open spec fn row_key(t: RowView) -> Seq<char> {
    if t.nvlink is Some || t.xgmi is Some {
        t.dev_name
    } else {
        t.dev_name + seq!['/'] + text::decimal(t.port as nat)
    }
}

/// Stable identity key for a row across refreshes.
pub fn throughput_key(t: &PortThroughput) -> (r: String)
    ensures
        r@ == row_key(t@),
{
    let mut out = t.dev_name.clone();
    if t.nvlink.is_none() && t.xgmi.is_none() {
        out.push('/');
        out.append(text::decimal_u64(t.port as u64).as_str());
        assert(out@ =~= row_key(t@));
    }
    out
}

/// The natural order of two names: negative when the first comes before the
/// second, positive when it comes after, zero when neither does.
pub uninterp spec fn natural_order(a: Seq<char>, b: Seq<char>) -> int;

/// `alphanumeric_sort::compare_str` compares two names so that each run of
/// digits counts by its value. A name equals itself, and the comparison the
/// other way round gives the opposite.
#[verifier::external_body]
fn compare_names(a: &str, b: &str) -> (r: i8)
    ensures
        r == natural_order(a@, b@),
        a@ == b@ ==> r == 0,
        natural_order(b@, a@) == -r,
{
    match alphanumeric_sort::compare_str(a, b) {
        core::cmp::Ordering::Less => -1,
        core::cmp::Ordering::Equal => 0,
        core::cmp::Ordering::Greater => 1,
    }
}

/// Whether a row comes before another: by the natural order of the device
/// names, then by port.
pub open spec fn row_before(a: RowView, b: RowView) -> bool {
    natural_order(a.dev_name, b.dev_name) < 0 || (natural_order(a.dev_name, b.dev_name) == 0
        && a.port < b.port)
}

impl lists::Ordered for PortThroughput {
    open spec fn less(a: RowView, b: RowView) -> bool {
        row_before(a, b)
    }

    fn before(&self, other: &Self) -> (r: bool) {
        let c: i8 = compare_names(self.dev_name.as_str(), other.dev_name.as_str());
        c < 0 || (c == 0 && self.port < other.port)
    }
}

/// Sort rows by device name (natural order), then port, for a stable display.
/// Natural order compares each numeric run by value, so `mlx5_2` < `mlx5_10`.
pub fn sort_by_device_order(throughputs: &mut Vec<PortThroughput>)
    ensures
        lists::views(final(throughputs)@) == lists::sorted::<PortThroughput>(
            lists::views(old(throughputs)@),
        ),
        final(throughputs)@.to_multiset() == old(throughputs)@.to_multiset(),
        lists::in_order::<PortThroughput>(lists::views(final(throughputs)@)),
{
    let mut rows: Vec<PortThroughput> = Vec::new();
    core::mem::swap(&mut rows, throughputs);
    *throughputs = lists::sort(rows);
}

/// The place of the last row of a reference list with a key; the largest
/// number when there is none.
pub open spec fn rank_in(reference: Seq<RowView>, key: Seq<char>) -> int
    decreases reference.len(),
{
    if reference.len() == 0 {
        usize::MAX as int
    } else if row_key(reference.last()) == key {
        reference.len() - 1
    } else {
        rank_in(reference.drop_last(), key)
    }
}

fn find_rank(keys: &[String], key: &str, Ghost(reference): Ghost<Seq<RowView>>) -> (r: usize)
    requires
        keys@.len() == reference.len(),
        forall|i: int| 0 <= i < keys@.len() ==> (#[trigger] keys@[i])@ == row_key(reference[i]),
    ensures
        r == rank_in(reference, key@),
{
    let mut i: usize = keys.len();
    assert(reference.take(i as int) =~= reference);
    while i > 0
        invariant
            i <= keys.len(),
            keys@.len() == reference.len(),
            forall|k: int| 0 <= k < keys@.len() ==> (#[trigger] keys@[k])@ == row_key(reference[k]),
            rank_in(reference, key@) == rank_in(reference.take(i as int), key@),
        decreases i,
    {
        proof {
            text::lemma_take_step(reference, i - 1);
        }
        if text::same(keys[i - 1].as_str(), key) {
            assert(keys@[i - 1]@ == row_key(reference[i - 1]));
            return i - 1;
        }
        assert(keys@[i - 1]@ == row_key(reference[i - 1]));
        i -= 1;
    }
    usize::MAX
}

/// A row with the place it is to take.
pub struct RankedRow {
    pub rank: usize,
    pub row: PortThroughput,
}

impl View for RankedRow {
    type V = (int, RowView);

    open spec fn view(&self) -> (int, RowView) {
        (self.rank as int, self.row@)
    }
}

impl lists::Ordered for RankedRow {
    open spec fn less(a: (int, RowView), b: (int, RowView)) -> bool {
        a.0 < b.0
    }

    fn before(&self, other: &Self) -> (r: bool) {
        self.rank < other.rank
    }
}

/// Rows with their places in a reference list.
pub open spec fn ranked(rows: Seq<RowView>, reference: Seq<RowView>) -> Seq<(int, RowView)> {
    Seq::new(rows.len(), |i: int| (rank_in(reference, row_key(rows[i])), rows[i]))
}

/// Rows without their places.
pub open spec fn unranked(rows: Seq<(int, RowView)>) -> Seq<RowView> {
    Seq::new(rows.len(), |i: int| rows[i].1)
}

/// Rows in the order in which a reference list has them; rows that it does not
/// have come last.
pub open spec fn ordered_like(rows: Seq<RowView>, reference: Seq<RowView>) -> Seq<RowView> {
    unranked(lists::sorted::<RankedRow>(ranked(rows, reference)))
}

/// Sort averaged throughputs to match the order of the reference (instant)
/// throughputs.
pub fn sort_by_throughput_order(avgs: &mut Vec<PortThroughput>, reference: &[PortThroughput])
    ensures
        lists::views(final(avgs)@) == ordered_like(
            lists::views(old(avgs)@),
            lists::views(reference@),
        ),
{
    let ghost rv = lists::views(reference@);
    let ghost rows = lists::views(avgs@);
    let mut keys: Vec<String> = Vec::new();
    let mut k: usize = 0;
    while k < reference.len()
        invariant
            k <= reference.len(),
            keys@.len() == k,
            rv == lists::views(reference@),
            forall|i: int| 0 <= i < keys@.len() ==> (#[trigger] keys@[i])@ == row_key(rv[i]),
        decreases reference.len() - k,
    {
        assert(rv[k as int] == reference@[k as int]@);
        keys.push(throughput_key(&reference[k]));
        k += 1;
    }
    let ghost goal = ranked(rows, rv);
    let mut placed: Vec<RankedRow> = Vec::new();
    let mut i: usize = 0;
    assert(lists::views(placed@) =~= goal.take(0));
    while i < avgs.len()
        invariant
            i <= avgs.len(),
            rows == lists::views(avgs@),
            goal == ranked(rows, rv),
            keys@.len() == rv.len(),
            forall|j: int| 0 <= j < keys@.len() ==> (#[trigger] keys@[j])@ == row_key(rv[j]),
            lists::views(placed@) == goal.take(i as int),
        decreases avgs.len() - i,
    {
        let row = avgs[i].clone();
        let key = throughput_key(&row);
        let rank: usize = find_rank(keys.as_slice(), key.as_str(), Ghost(rv));
        let item = RankedRow { rank, row };
        proof {
            lists::lemma_views_push(placed@, item);
            text::lemma_take_step(goal, i as int);
            assert(rows[i as int] == row@);
            assert(goal[i as int] == item@);
        }
        placed.push(item);
        i += 1;
    }
    assert(goal.take(goal.len() as int) =~= goal);
    let sorted = lists::sort(placed);
    let ghost order = unranked(lists::views(sorted@));
    let mut out: Vec<PortThroughput> = Vec::new();
    let mut n: usize = 0;
    assert(lists::views(out@) =~= order.take(0));
    while n < sorted.len()
        invariant
            n <= sorted.len(),
            order == unranked(lists::views(sorted@)),
            lists::views(out@) == order.take(n as int),
        decreases sorted.len() - n,
    {
        let row = sorted[n].row.clone();
        proof {
            lists::lemma_views_push(out@, row);
            text::lemma_take_step(order, n as int);
            assert(lists::views(sorted@)[n as int] == sorted@[n as int]@);
            assert(order[n as int] == row@);
        }
        out.push(row);
        n += 1;
    }
    assert(order.take(order.len() as int) =~= order);
    *avgs = out;
}

/// Whether a mean counts nothing.
pub open spec fn idle(m: MeanView) -> bool {
    !metrics::counts(m)
}

/// Whether no figure of a row counts anything.
pub open spec fn idle_row(t: RowView) -> bool {
    idle(t.tx_bytes) && idle(t.rx_bytes) && idle(t.tx_pkts) && idle(t.rx_pkts) && idle(t.rx_drops)
}

proof fn lemma_rate_named(
    curr: PortStatView,
    prev: Option<PortStatView>,
    elapsed_ns: u64,
    name: Seq<char>,
    k: int,
)
    requires
        0 <= k <= curr.counters.len(),
    ensures
        rate_named(metrics::rates_of(curr, prev, elapsed_ns).skip(k), name)
            == match stat::value_named(curr.counters.skip(k), name) {
            Some(v) => MeanView::One(
                Rate { delta: metrics::advance(v, metrics::value_before(prev, name)), elapsed_ns },
            ),
            None => MeanView::One(metrics::no_rate()),
        },
    decreases curr.counters.len() - k,
{
    let rates = metrics::rates_of(curr, prev, elapsed_ns);
    if k < curr.counters.len() {
        assert(rates.skip(k)[0] == rates[k]);
        assert(curr.counters.skip(k)[0] == curr.counters[k]);
        assert(rates.skip(k).drop_first() =~= rates.skip(k + 1));
        assert(curr.counters.skip(k).drop_first() =~= curr.counters.skip(k + 1));
        lemma_rate_named(curr, prev, elapsed_ns, name, k + 1);
    }
}

proof fn lemma_port_figure(
    curr: PortStatView,
    prev: Option<PortStatView>,
    elapsed_ns: u64,
    name: Seq<char>,
)
    ensures
        rate_named(metrics::rates_of(curr, prev, elapsed_ns), name)
            == match stat::value_named(curr.counters, name) {
            Some(v) => MeanView::One(
                Rate { delta: metrics::advance(v, metrics::value_before(prev, name)), elapsed_ns },
            ),
            None => MeanView::One(metrics::no_rate()),
        },
{
    lemma_rate_named(curr, prev, elapsed_ns, name, 0);
    assert(metrics::rates_of(curr, prev, elapsed_ns).skip(0) =~= metrics::rates_of(
        curr,
        prev,
        elapsed_ns,
    ));
    assert(curr.counters.skip(0) =~= curr.counters);
}

/// The table shows what a capture of the same port would record, for every
/// counter that the port has.
pub proof fn law_row_agrees_with_capture(
    curr: PortStatView,
    prev: Option<PortStatView>,
    elapsed_ns: u64,
)
    ensures
        stat::value_named(curr.counters, "tx_bytes"@) is Some ==> port_row(
            curr,
            prev,
            elapsed_ns,
        ).tx_bytes == metrics::metrics_of(curr, prev, elapsed_ns).tx_bytes,
        stat::value_named(curr.counters, "rx_bytes"@) is Some ==> port_row(
            curr,
            prev,
            elapsed_ns,
        ).rx_bytes == metrics::metrics_of(curr, prev, elapsed_ns).rx_bytes,
        stat::value_named(curr.counters, "tx_pkts"@) is Some ==> port_row(
            curr,
            prev,
            elapsed_ns,
        ).tx_pkts == metrics::metrics_of(curr, prev, elapsed_ns).tx_pkts,
        stat::value_named(curr.counters, "rx_pkts"@) is Some ==> port_row(
            curr,
            prev,
            elapsed_ns,
        ).rx_pkts == metrics::metrics_of(curr, prev, elapsed_ns).rx_pkts,
        stat::value_named(curr.counters, "rx_drops"@) is Some ==> port_row(
            curr,
            prev,
            elapsed_ns,
        ).rx_drops == metrics::metrics_of(curr, prev, elapsed_ns).rx_drops,
{
    lemma_port_figure(curr, prev, elapsed_ns, "tx_bytes"@);
    lemma_port_figure(curr, prev, elapsed_ns, "rx_bytes"@);
    lemma_port_figure(curr, prev, elapsed_ns, "tx_pkts"@);
    lemma_port_figure(curr, prev, elapsed_ns, "rx_pkts"@);
    lemma_port_figure(curr, prev, elapsed_ns, "rx_drops"@);
}

/// Whether no port stands twice in a reading.
pub open spec fn ports_distinct(stats: Seq<PortStatView>) -> bool {
    forall|i: int, j: int|
        0 <= i < j < stats.len() ==> ((#[trigger] stats[i]).dev_name, stats[i].port) != ((
        #[trigger] stats[j]).dev_name, stats[j].port)
}

proof fn lemma_stat_at(stats: Seq<PortStatView>, i: int, k: int)
    requires
        ports_distinct(stats),
        0 <= k <= i < stats.len(),
    ensures
        metrics::stat_at(stats.skip(k), stats[i].dev_name, stats[i].port) == Some(stats[i]),
    decreases i - k,
{
    assert(stats.skip(k)[0] == stats[k]);
    if k < i {
        assert(stats.skip(k).drop_first() =~= stats.skip(k + 1));
        lemma_stat_at(stats, i, k + 1);
    }
}

/// A first reading, which is compared with itself, counts nothing.
pub proof fn law_first_reading_is_idle(stats: Seq<PortStatView>, elapsed_ns: u64, i: int)
    requires
        ports_distinct(stats),
        0 <= i < stats.len(),
    ensures
        idle_row(port_rows(stats, stats, elapsed_ns)[i]),
{
    lemma_stat_at(stats, i, 0);
    assert(stats.skip(0) =~= stats);
    let curr = stats[i];
    lemma_port_figure(curr, Some(curr), elapsed_ns, "tx_bytes"@);
    lemma_port_figure(curr, Some(curr), elapsed_ns, "rx_bytes"@);
    lemma_port_figure(curr, Some(curr), elapsed_ns, "tx_pkts"@);
    lemma_port_figure(curr, Some(curr), elapsed_ns, "rx_pkts"@);
    lemma_port_figure(curr, Some(curr), elapsed_ns, "rx_drops"@);
}

/// Whether no link stands twice in a sample.
pub open spec fn nv_links_distinct(links: Seq<LinkSnapshotView>) -> bool {
    forall|i: int, j: int|
        0 <= i < j < links.len() ==> (#[trigger] links[i]).link_id != (#[trigger] links[j]).link_id
}

/// Whether no GPU and no link of one stands twice in a sample.
pub open spec fn nv_distinct(gpus: Seq<NvLinkSnapshotView>) -> bool {
    &&& forall|i: int, j: int|
        0 <= i < j < gpus.len() ==> (#[trigger] gpus[i]).gpu_index != (
        #[trigger] gpus[j]).gpu_index
    &&& forall|i: int| 0 <= i < gpus.len() ==> nv_links_distinct((#[trigger] gpus[i]).links)
}

proof fn lemma_nv_gpu_at(gpus: Seq<NvLinkSnapshotView>, i: int, k: int)
    requires
        nv_distinct(gpus),
        0 <= k <= i < gpus.len(),
    ensures
        nv_gpu_at(gpus.skip(k), gpus[i].gpu_index) == Some(gpus[i]),
    decreases i - k,
{
    assert(gpus.skip(k)[0] == gpus[k]);
    if k < i {
        assert(gpus.skip(k).drop_first() =~= gpus.skip(k + 1));
        lemma_nv_gpu_at(gpus, i, k + 1);
    }
}

proof fn lemma_nv_link_at(links: Seq<LinkSnapshotView>, i: int, k: int)
    requires
        nv_links_distinct(links),
        0 <= k <= i < links.len(),
    ensures
        nv_link_at(links.skip(k), links[i].link_id) == Some(links[i]),
    decreases i - k,
{
    assert(links.skip(k)[0] == links[k]);
    if k < i {
        assert(links.skip(k).drop_first() =~= links.skip(k + 1));
        lemma_nv_link_at(links, i, k + 1);
    }
}

proof fn lemma_first_active(links: Seq<LinkSnapshotView>)
    ensures
        match first_active(links) {
            Some(l) => links.contains(l),
            None => true,
        },
    decreases links.len(),
{
    if links.len() > 0 {
        assert(links[0] == links[0]);
        assert(links.contains(links[0]));
        if !links[0].is_active {
            let rest = links.drop_first();
            lemma_first_active(rest);
            match first_active(rest) {
                Some(l) => {
                    let i = rest.index_of(l);
                    assert(links[i + 1] == l);
                },
                None => {},
            }
        }
    }
}

/// A first sample of the NVIDIA GPUs, which is compared with itself, counts
/// nothing.
pub proof fn law_first_nvlink_sample_is_idle(
    gpus: Seq<NvLinkSnapshotView>,
    elapsed_ns: u64,
    i: int,
)
    requires
        nv_distinct(gpus),
        0 <= i < gpus.len(),
    ensures
        idle_row(nv_rows(gpus, gpus, elapsed_ns)[i]),
{
    lemma_nv_gpu_at(gpus, i, 0);
    assert(gpus.skip(0) =~= gpus);
    let links = gpus[i].links;
    lemma_first_active(links);
    match aggregate_link(links) {
        Some(l) => {
            if first_active(links) is None {
                assert(links[0] == l);
            }
            assert(links.contains(l));
            let k = links.index_of(l);
            lemma_nv_link_at(links, k, 0);
            assert(links.skip(0) =~= links);
        },
        None => {},
    }
}

/// A GPU that the sample before does not have counts nothing: its counters
/// have run since the driver was loaded.
pub proof fn law_unseen_gpu_is_idle(
    nv: NvLinkSnapshotView,
    amd: XgmiSnapshotView,
    elapsed_ns: u64,
)
    ensures
        idle_row(nv_row(nv, None, elapsed_ns)),
        idle_row(xgmi_row(amd, None, elapsed_ns)),
{
    lemma_idle_links(xgmi_link_rates(amd.links, None, elapsed_ns));
}

proof fn lemma_idle_links(rates: Seq<XgmiLinkRateView>)
    requires
        forall|i: int|
            0 <= i < rates.len() ==> rate_delta((#[trigger] rates[i]).tx_rate) == 0 && rate_delta(
                rates[i].rx_rate,
            ) == 0,
    ensures
        tx_sum(rates) == 0,
        rx_sum(rates) == 0,
    decreases rates.len(),
{
    if rates.len() > 0 {
        lemma_idle_links(rates.drop_last());
    }
}

/// Whether no link stands twice in a sample.
pub open spec fn xgmi_links_distinct(links: Seq<XgmiLinkSnapshotView>) -> bool {
    forall|i: int, j: int|
        0 <= i < j < links.len() ==> (#[trigger] links[i]).link_id != (#[trigger] links[j]).link_id
}

/// Whether no GPU and no link of one stands twice in a sample.
pub open spec fn xgmi_distinct(gpus: Seq<XgmiSnapshotView>) -> bool {
    &&& forall|i: int, j: int|
        0 <= i < j < gpus.len() ==> (#[trigger] gpus[i]).gpu_index != (
        #[trigger] gpus[j]).gpu_index
    &&& forall|i: int| 0 <= i < gpus.len() ==> xgmi_links_distinct((#[trigger] gpus[i]).links)
}

proof fn lemma_xgmi_gpu_at(gpus: Seq<XgmiSnapshotView>, i: int, k: int)
    requires
        xgmi_distinct(gpus),
        0 <= k <= i < gpus.len(),
    ensures
        xgmi_gpu_at(gpus.skip(k), gpus[i].gpu_index) == Some(gpus[i]),
    decreases i - k,
{
    assert(gpus.skip(k)[0] == gpus[k]);
    if k < i {
        assert(gpus.skip(k).drop_first() =~= gpus.skip(k + 1));
        lemma_xgmi_gpu_at(gpus, i, k + 1);
    }
}

proof fn lemma_xgmi_link_at(links: Seq<XgmiLinkSnapshotView>, i: int, k: int)
    requires
        xgmi_links_distinct(links),
        0 <= k <= i < links.len(),
    ensures
        xgmi_link_at(links.skip(k), links[i].link_id) == Some(links[i]),
    decreases i - k,
{
    assert(links.skip(k)[0] == links[k]);
    if k < i {
        assert(links.skip(k).drop_first() =~= links.skip(k + 1));
        lemma_xgmi_link_at(links, i, k + 1);
    }
}

/// A first sample of the AMD GPUs, which is compared with itself, counts
/// nothing.
pub proof fn law_first_xgmi_sample_is_idle(gpus: Seq<XgmiSnapshotView>, elapsed_ns: u64, i: int)
    requires
        xgmi_distinct(gpus),
        0 <= i < gpus.len(),
    ensures
        idle_row(xgmi_rows(gpus, gpus, elapsed_ns)[i]),
{
    lemma_xgmi_gpu_at(gpus, i, 0);
    assert(gpus.skip(0) =~= gpus);
    let gpu = gpus[i];
    let rates = xgmi_link_rates(gpu.links, Some(gpu), elapsed_ns);
    assert forall|k: int| 0 <= k < rates.len() implies rate_delta((#[trigger] rates[k]).tx_rate)
        == 0 && rate_delta(rates[k].rx_rate) == 0 by {
        lemma_xgmi_link_at(gpu.links, k, 0);
        assert(gpu.links.skip(0) =~= gpu.links);
    }
    lemma_idle_links(rates);
}

/// `gpus[k]` is the GPU, and none before it is.
pub open spec fn is_first_nv_gpu(gpus: Seq<NvLinkSnapshotView>, k: int, gpu_index: u32) -> bool {
    &&& 0 <= k < gpus.len()
    &&& gpus[k].gpu_index == gpu_index
    &&& forall|j: int| 0 <= j < k ==> (#[trigger] gpus[j]).gpu_index != gpu_index
}

/// A GPU is found in an NVLink sample by its index.
pub proof fn law_nv_gpu_is_found(gpus: Seq<NvLinkSnapshotView>, gpu_index: u32, k: int)
    ensures
        is_first_nv_gpu(gpus, k, gpu_index) ==> nv_gpu_at(gpus, gpu_index) == Some(gpus[k]),
        nv_gpu_at(gpus, gpu_index) is None ==> forall|j: int|
            0 <= j < gpus.len() ==> (#[trigger] gpus[j]).gpu_index != gpu_index,
        nv_gpu_at(gpus, gpu_index) matches Some(g) ==> g.gpu_index == gpu_index,
    decreases gpus.len(),
{
    if gpus.len() > 0 && gpus[0].gpu_index != gpu_index {
        let rest = gpus.drop_first();
        law_nv_gpu_is_found(rest, gpu_index, k - 1);
        if is_first_nv_gpu(gpus, k, gpu_index) {
            assert forall|j: int| 0 <= j < k - 1 implies (#[trigger] rest[j]).gpu_index
                != gpu_index by {
                assert(gpus[j + 1].gpu_index != gpu_index);
            }
        }
        if nv_gpu_at(rest, gpu_index) is None {
            assert forall|j: int| 0 <= j < gpus.len() implies (#[trigger] gpus[j]).gpu_index
                != gpu_index by {
                if j > 0 {
                    assert(rest[j - 1].gpu_index != gpu_index);
                }
            }
        }
    }
}

/// `links[k]` is the link, and none before it is.
pub open spec fn is_first_nv_link(links: Seq<LinkSnapshotView>, k: int, link_id: u32) -> bool {
    &&& 0 <= k < links.len()
    &&& links[k].link_id == link_id
    &&& forall|j: int| 0 <= j < k ==> (#[trigger] links[j]).link_id != link_id
}

/// A link is found in an NVLink sample by its number.
pub proof fn law_nv_link_is_found(links: Seq<LinkSnapshotView>, link_id: u32, k: int)
    ensures
        is_first_nv_link(links, k, link_id) ==> nv_link_at(links, link_id) == Some(links[k]),
        nv_link_at(links, link_id) is None ==> forall|j: int|
            0 <= j < links.len() ==> (#[trigger] links[j]).link_id != link_id,
        nv_link_at(links, link_id) matches Some(l) ==> l.link_id == link_id,
    decreases links.len(),
{
    if links.len() > 0 && links[0].link_id != link_id {
        let rest = links.drop_first();
        law_nv_link_is_found(rest, link_id, k - 1);
        if is_first_nv_link(links, k, link_id) {
            assert forall|j: int| 0 <= j < k - 1 implies (#[trigger] rest[j]).link_id
                != link_id by {
                assert(links[j + 1].link_id != link_id);
            }
        }
        if nv_link_at(rest, link_id) is None {
            assert forall|j: int| 0 <= j < links.len() implies (#[trigger] links[j]).link_id
                != link_id by {
                if j > 0 {
                    assert(rest[j - 1].link_id != link_id);
                }
            }
        }
    }
}

/// Whether a figure is what a counter advanced between two samples; a counter
/// that either of them lacks counts nothing.
pub open spec fn follows(
    m: MeanView,
    later: Option<u64>,
    earlier: Option<u64>,
    elapsed_ns: u64,
) -> bool {
    match (later, earlier) {
        (Some(l), Some(e)) => metrics::measures(m, l, e, elapsed_ns),
        _ => metrics::measures(m, 0, 0, elapsed_ns),
    }
}

/// The figures of an NVLink GPU are the advances of its own counters, what it
/// sent from the transmit counter and what it received from the receive
/// counter, over the time between the samples.
pub proof fn law_gpu_totals_keep_direction(
    prev: Seq<NvLinkSnapshotView>,
    curr: Seq<NvLinkSnapshotView>,
    elapsed_ns: u64,
    i: int,
    k: int,
)
    requires
        0 <= i < curr.len(),
        is_first_nv_gpu(prev, k, curr[i].gpu_index),
        curr[i].tx_bytes is Some || curr[i].rx_bytes is Some,
    ensures
        follows(
            nv_rows(prev, curr, elapsed_ns)[i].tx_bytes,
            curr[i].tx_bytes,
            prev[k].tx_bytes,
            elapsed_ns,
        ),
        follows(
            nv_rows(prev, curr, elapsed_ns)[i].rx_bytes,
            curr[i].rx_bytes,
            prev[k].rx_bytes,
            elapsed_ns,
        ),
        match (curr[i].tx_bytes, prev[k].tx_bytes) {
            (Some(c), Some(p)) => nv_rows(prev, curr, elapsed_ns)[i].tx_bytes == MeanView::One(
                Rate {
                    delta: if c >= p {
                        (c - p) as u64
                    } else {
                        0
                    },
                    elapsed_ns,
                },
            ),
            _ => true,
        },
        match (curr[i].rx_bytes, prev[k].rx_bytes) {
            (Some(c), Some(p)) => nv_rows(prev, curr, elapsed_ns)[i].rx_bytes == MeanView::One(
                Rate {
                    delta: if c >= p {
                        (c - p) as u64
                    } else {
                        0
                    },
                    elapsed_ns,
                },
            ),
            _ => true,
        },
{
    law_nv_gpu_is_found(prev, curr[i].gpu_index, k);
}

/// What a GPU received does not depend on its transmit counters, nor what it
/// sent on its receive counters.
pub proof fn law_gpu_directions_are_independent(
    a: NvLinkSnapshotView,
    b: NvLinkSnapshotView,
    prev_a: NvLinkSnapshotView,
    prev_b: NvLinkSnapshotView,
    elapsed_ns: u64,
)
    ensures
        a.rx_bytes is Some && a.rx_bytes == b.rx_bytes && prev_a.rx_bytes == prev_b.rx_bytes
            ==> nv_row(a, Some(prev_a), elapsed_ns).rx_bytes == nv_row(
            b,
            Some(prev_b),
            elapsed_ns,
        ).rx_bytes,
        a.tx_bytes is Some && a.tx_bytes == b.tx_bytes && prev_a.tx_bytes == prev_b.tx_bytes
            ==> nv_row(a, Some(prev_a), elapsed_ns).tx_bytes == nv_row(
            b,
            Some(prev_b),
            elapsed_ns,
        ).tx_bytes,
{
}

/// `links[l]` stands for the whole GPU: the first link that is active, or the
/// first of all where none is.
pub open spec fn stands_for_gpu(links: Seq<LinkSnapshotView>, l: int) -> bool {
    &&& 0 <= l < links.len()
    &&& links[l].is_active ==> forall|j: int| 0 <= j < l ==> !(#[trigger] links[j]).is_active
    &&& !links[l].is_active ==> l == 0 && forall|j: int|
        0 <= j < links.len() ==> !(#[trigger] links[j]).is_active
}

proof fn lemma_first_active_at(links: Seq<LinkSnapshotView>, l: int)
    ensures
        0 <= l < links.len() && links[l].is_active && (forall|j: int|
            0 <= j < l ==> !(#[trigger] links[j]).is_active) ==> first_active(links) == Some(
            links[l],
        ),
        (forall|j: int| 0 <= j < links.len() ==> !(#[trigger] links[j]).is_active) ==> first_active(
            links,
        ) is None,
    decreases links.len(),
{
    if links.len() > 0 && !links[0].is_active {
        let rest = links.drop_first();
        lemma_first_active_at(rest, l - 1);
        if forall|j: int| 0 <= j < links.len() ==> !(#[trigger] links[j]).is_active {
            assert forall|j: int| 0 <= j < rest.len() implies !(#[trigger] rest[j]).is_active by {
                assert(!links[j + 1].is_active);
            }
        }
        if 0 <= l < links.len() && links[l].is_active && (forall|j: int|
            0 <= j < l ==> !(#[trigger] links[j]).is_active) {
            assert forall|j: int| 0 <= j < l - 1 implies !(#[trigger] rest[j]).is_active by {
                assert(!links[j + 1].is_active);
            }
        }
    }
}

/// Where a GPU has no counters of its own, its figures are those of one link,
/// compared with the same link of the sample before.
pub proof fn law_one_link_stands_for_the_gpu(
    prev: Seq<NvLinkSnapshotView>,
    curr: Seq<NvLinkSnapshotView>,
    elapsed_ns: u64,
    i: int,
    k: int,
    l: int,
    p: int,
)
    requires
        0 <= i < curr.len(),
        is_first_nv_gpu(prev, k, curr[i].gpu_index),
        curr[i].tx_bytes is None && curr[i].rx_bytes is None,
        stands_for_gpu(curr[i].links, l),
        is_first_nv_link(prev[k].links, p, curr[i].links[l].link_id),
    ensures
        follows(
            nv_rows(prev, curr, elapsed_ns)[i].tx_bytes,
            curr[i].links[l].tx_bytes,
            prev[k].links[p].tx_bytes,
            elapsed_ns,
        ),
        follows(
            nv_rows(prev, curr, elapsed_ns)[i].rx_bytes,
            curr[i].links[l].rx_bytes,
            prev[k].links[p].rx_bytes,
            elapsed_ns,
        ),
{
    law_nv_gpu_is_found(prev, curr[i].gpu_index, k);
    law_nv_link_is_found(prev[k].links, curr[i].links[l].link_id, p);
    lemma_first_active_at(curr[i].links, l);
}

/// The row of an NVLink GPU names it by its index, shows how many of its links
/// are active and its bandwidth, and carries its name, health and links.
pub proof fn law_nv_row_describes_its_gpu(
    gpu: NvLinkSnapshotView,
    prev: Option<NvLinkSnapshotView>,
    elapsed_ns: u64,
)
    ensures
        nv_row(gpu, prev, elapsed_ns).dev_name == "nvidia"@ + text::decimal(gpu.gpu_index as nat),
        nvlink::active_count(gpu.links) <= u32::MAX ==> nv_row(gpu, prev, elapsed_ns).port
            == nvlink::active_count(gpu.links),
        nv_row(gpu, prev, elapsed_ns).link_mbps == gpu.link_mbps,
        nv_row(gpu, prev, elapsed_ns).port_label == Some(
            text::decimal(nv_row(gpu, prev, elapsed_ns).port as nat) + seq!['/'] + text::decimal(
                gpu.link_count as nat,
            ),
        ),
        nv_row(gpu, prev, elapsed_ns).class == DeviceClass::Nvlink,
        nv_row(gpu, prev, elapsed_ns).xgmi is None,
        idle(nv_row(gpu, prev, elapsed_ns).tx_pkts),
        idle(nv_row(gpu, prev, elapsed_ns).rx_pkts),
        idle(nv_row(gpu, prev, elapsed_ns).rx_drops),
        match nv_row(gpu, prev, elapsed_ns).nvlink {
            Some(m) => {
                &&& m.gpu_index == gpu.gpu_index
                &&& m.gpu_name == gpu.gpu_name
                &&& m.metrics == gpu.metrics
                &&& m.active_links == nv_row(gpu, prev, elapsed_ns).port
                &&& m.links.len() == gpu.links.len()
                &&& forall|i: int|
                    0 <= i < gpu.links.len() ==> (#[trigger] m.links[i]).link == gpu.links[i]
            },
            None => false,
        },
{
}

/// Whether a link's rate is what its counter advanced; a link without the
/// counter has no rate, and one that could not be compared counts nothing.
pub open spec fn link_follows(
    rate: Option<Rate>,
    later: Option<u64>,
    earlier: Option<u64>,
    elapsed_ns: u64,
) -> bool {
    match rate {
        Some(r) => later is Some && follows(MeanView::One(r), later, earlier, elapsed_ns),
        None => later is None,
    }
}

/// Each NVLink of a row has its own rates, each way from its own counter.
pub proof fn law_nv_links_keep_direction(
    gpu: NvLinkSnapshotView,
    prev: NvLinkSnapshotView,
    elapsed_ns: u64,
    i: int,
    p: int,
)
    requires
        0 <= i < gpu.links.len(),
        is_first_nv_link(prev.links, p, gpu.links[i].link_id),
    ensures
        match nv_row(gpu, Some(prev), elapsed_ns).nvlink {
            Some(m) => {
                &&& link_follows(
                    m.links[i].tx_rate,
                    gpu.links[i].tx_bytes,
                    prev.links[p].tx_bytes,
                    elapsed_ns,
                )
                &&& link_follows(
                    m.links[i].rx_rate,
                    gpu.links[i].rx_bytes,
                    prev.links[p].rx_bytes,
                    elapsed_ns,
                )
            },
            None => false,
        },
{
    law_nv_link_is_found(prev.links, gpu.links[i].link_id, p);
}

/// Whether a counter rate shows an error count under a name, with its advance.
pub open spec fn shows_errors(
    c: CounterRateView,
    name: Seq<char>,
    later: u64,
    earlier: Option<u64>,
    elapsed_ns: u64,
) -> bool {
    &&& c.name == name
    &&& c.value == later
    &&& !c.is_bytes
    &&& follows(c.rate, Some(later), earlier, elapsed_ns)
    &&& (c.rate matches MeanView::One(r) && r.delta == c.delta)
}

/// An NVLink shows each error count that it has once, under the name of its
/// kind and its number: checksum errors, then replays, then recoveries.
pub proof fn law_nv_link_shows_its_errors(
    link: LinkSnapshotView,
    prev: LinkSnapshotView,
    elapsed_ns: u64,
)
    requires
        link.crc_error_count is Some,
        link.replay_error_count is Some,
        link.recovery_error_count is Some,
    ensures
        nv_link_errors(link, Some(prev), elapsed_ns).len() == 3,
        shows_errors(
            nv_link_errors(link, Some(prev), elapsed_ns)[0],
            "nvlink_crc_l"@ + text::decimal(link.link_id as nat),
            link.crc_error_count.unwrap(),
            prev.crc_error_count,
            elapsed_ns,
        ),
        shows_errors(
            nv_link_errors(link, Some(prev), elapsed_ns)[1],
            "nvlink_replay_l"@ + text::decimal(link.link_id as nat),
            link.replay_error_count.unwrap(),
            prev.replay_error_count,
            elapsed_ns,
        ),
        shows_errors(
            nv_link_errors(link, Some(prev), elapsed_ns)[2],
            "nvlink_recovery_l"@ + text::decimal(link.link_id as nat),
            link.recovery_error_count.unwrap(),
            prev.recovery_error_count,
            elapsed_ns,
        ),
{
}

/// An error count that a link lacks is left out, and the others stay.
pub proof fn law_missing_nv_errors_are_left_out(
    link: LinkSnapshotView,
    prev: Option<LinkSnapshotView>,
    elapsed_ns: u64,
)
    ensures
        nv_link_errors(link, prev, elapsed_ns).len() == (if link.crc_error_count is Some {
            1int
        } else {
            0
        }) + (if link.replay_error_count is Some {
            1int
        } else {
            0
        }) + (if link.recovery_error_count is Some {
            1int
        } else {
            0
        }),
        link.crc_error_count matches Some(v) ==> nv_link_errors(link, prev, elapsed_ns)[0].value
            == v,
        link.recovery_error_count matches Some(v) ==> nv_link_errors(
            link,
            prev,
            elapsed_ns,
        ).last().value == v,
        link.crc_error_count is None ==> (link.replay_error_count matches Some(v)
            ==> nv_link_errors(link, prev, elapsed_ns)[0].value == v),
{
}

/// The error counts of a GPU are those of its links one after the other, each
/// compared with the same link before.
pub proof fn law_nv_errors_concatenate(
    a: Seq<LinkSnapshotView>,
    b: Seq<LinkSnapshotView>,
    link: LinkSnapshotView,
    prev: NvLinkSnapshotView,
    elapsed_ns: u64,
    p: int,
)
    requires
        is_first_nv_link(prev.links, p, link.link_id),
    ensures
        nv_errors(a + b, Some(prev), elapsed_ns) == nv_errors(a, Some(prev), elapsed_ns)
            + nv_errors(b, Some(prev), elapsed_ns),
        nv_errors(seq![link], Some(prev), elapsed_ns) == nv_link_errors(
            link,
            Some(prev.links[p]),
            elapsed_ns,
        ),
    decreases b.len(),
{
    law_nv_link_is_found(prev.links, link.link_id, p);
    assert(seq![link].drop_last() =~= seq![]);
    assert(nv_errors(seq![], Some(prev), elapsed_ns) =~= seq![]);
    assert(nv_errors(seq![link], Some(prev), elapsed_ns) =~= nv_link_errors(
        link,
        Some(prev.links[p]),
        elapsed_ns,
    ));
    if b.len() == 0 {
        assert(a + b =~= a);
        assert(nv_errors(b, Some(prev), elapsed_ns) =~= seq![]);
    } else {
        law_nv_errors_concatenate(a, b.drop_last(), link, prev, elapsed_ns, p);
        assert((a + b).drop_last() =~= a + b.drop_last());
        assert((a + b).last() == b.last());
    }
    assert(nv_errors(a + b, Some(prev), elapsed_ns) =~= nv_errors(a, Some(prev), elapsed_ns)
        + nv_errors(b, Some(prev), elapsed_ns));
}

/// A row of an NVLink GPU shows the error counts of all its links.
pub proof fn law_nv_row_shows_its_errors(
    gpu: NvLinkSnapshotView,
    prev: Option<NvLinkSnapshotView>,
    elapsed_ns: u64,
)
    ensures
        nv_row(gpu, prev, elapsed_ns).counter_rates == nv_errors(gpu.links, prev, elapsed_ns),
{
}

/// `gpus[k]` is the GPU, and none before it is.
pub open spec fn is_first_xgmi_gpu(gpus: Seq<XgmiSnapshotView>, k: int, gpu_index: u32) -> bool {
    &&& 0 <= k < gpus.len()
    &&& gpus[k].gpu_index == gpu_index
    &&& forall|j: int| 0 <= j < k ==> (#[trigger] gpus[j]).gpu_index != gpu_index
}

/// A GPU is found in an XGMI sample by its index.
pub proof fn law_xgmi_gpu_is_found(gpus: Seq<XgmiSnapshotView>, gpu_index: u32, k: int)
    ensures
        is_first_xgmi_gpu(gpus, k, gpu_index) ==> xgmi_gpu_at(gpus, gpu_index) == Some(gpus[k]),
        xgmi_gpu_at(gpus, gpu_index) is None ==> forall|j: int|
            0 <= j < gpus.len() ==> (#[trigger] gpus[j]).gpu_index != gpu_index,
        xgmi_gpu_at(gpus, gpu_index) matches Some(g) ==> g.gpu_index == gpu_index,
    decreases gpus.len(),
{
    if gpus.len() > 0 && gpus[0].gpu_index != gpu_index {
        let rest = gpus.drop_first();
        law_xgmi_gpu_is_found(rest, gpu_index, k - 1);
        if is_first_xgmi_gpu(gpus, k, gpu_index) {
            assert forall|j: int| 0 <= j < k - 1 implies (#[trigger] rest[j]).gpu_index
                != gpu_index by {
                assert(gpus[j + 1].gpu_index != gpu_index);
            }
        }
        if xgmi_gpu_at(rest, gpu_index) is None {
            assert forall|j: int| 0 <= j < gpus.len() implies (#[trigger] gpus[j]).gpu_index
                != gpu_index by {
                if j > 0 {
                    assert(rest[j - 1].gpu_index != gpu_index);
                }
            }
        }
    }
}

/// `links[k]` is the link, and none before it is.
pub open spec fn is_first_xgmi_link(links: Seq<XgmiLinkSnapshotView>, k: int, link_id: u32) -> bool {
    &&& 0 <= k < links.len()
    &&& links[k].link_id == link_id
    &&& forall|j: int| 0 <= j < k ==> (#[trigger] links[j]).link_id != link_id
}

/// A link is found in an XGMI sample by its number.
pub proof fn law_xgmi_link_is_found(links: Seq<XgmiLinkSnapshotView>, link_id: u32, k: int)
    ensures
        is_first_xgmi_link(links, k, link_id) ==> xgmi_link_at(links, link_id) == Some(links[k]),
        xgmi_link_at(links, link_id) is None ==> forall|j: int|
            0 <= j < links.len() ==> (#[trigger] links[j]).link_id != link_id,
        xgmi_link_at(links, link_id) matches Some(l) ==> l.link_id == link_id,
    decreases links.len(),
{
    if links.len() > 0 && links[0].link_id != link_id {
        let rest = links.drop_first();
        law_xgmi_link_is_found(rest, link_id, k - 1);
        if is_first_xgmi_link(links, k, link_id) {
            assert forall|j: int| 0 <= j < k - 1 implies (#[trigger] rest[j]).link_id
                != link_id by {
                assert(links[j + 1].link_id != link_id);
            }
        }
        if xgmi_link_at(rest, link_id) is None {
            assert forall|j: int| 0 <= j < links.len() implies (#[trigger] links[j]).link_id
                != link_id by {
                if j > 0 {
                    assert(rest[j - 1].link_id != link_id);
                }
            }
        }
    }
}

/// Each XGMI link of a row has its own rates, each way from its own counter.
pub proof fn law_xgmi_links_keep_direction(
    gpu: XgmiSnapshotView,
    prev: XgmiSnapshotView,
    elapsed_ns: u64,
    i: int,
    p: int,
)
    requires
        0 <= i < gpu.links.len(),
        is_first_xgmi_link(prev.links, p, gpu.links[i].link_id),
    ensures
        match xgmi_row(gpu, Some(prev), elapsed_ns).xgmi {
            Some(m) => {
                &&& m.links.len() == gpu.links.len()
                &&& m.links[i].link == gpu.links[i]
                &&& link_follows(
                    m.links[i].tx_rate,
                    gpu.links[i].tx_bytes,
                    prev.links[p].tx_bytes,
                    elapsed_ns,
                )
                &&& link_follows(
                    m.links[i].rx_rate,
                    gpu.links[i].rx_bytes,
                    prev.links[p].rx_bytes,
                    elapsed_ns,
                )
            },
            None => false,
        },
{
    law_xgmi_link_is_found(prev.links, gpu.links[i].link_id, p);
}

/// The smaller of a sum and the largest number that a counter holds.
pub open spec fn at_most_max(n: int) -> int {
    if n > 0xffff_ffff_ffff_ffff {
        0xffff_ffff_ffff_ffff
    } else {
        n
    }
}

/// Link rates add up each way on their own, up to what a counter holds; a link
/// without a rate adds nothing.
pub proof fn law_link_rates_add_up(
    a: Seq<XgmiLinkRateView>,
    b: Seq<XgmiLinkRateView>,
    x: XgmiLinkRateView,
)
    ensures
        tx_sum(a + b) == at_most_max(tx_sum(a) + tx_sum(b)),
        rx_sum(a + b) == at_most_max(rx_sum(a) + rx_sum(b)),
        x.tx_rate is None ==> tx_sum(seq![x]) == 0,
        x.rx_rate is None ==> rx_sum(seq![x]) == 0,
        x.tx_rate matches Some(r) ==> tx_sum(seq![x]) == r.delta,
        x.rx_rate matches Some(r) ==> rx_sum(seq![x]) == r.delta,
        0 <= tx_sum(a) <= u64::MAX,
        0 <= rx_sum(a) <= u64::MAX,
    decreases a.len() + b.len(),
{
    assert(seq![x].drop_last() =~= seq![]);
    assert(tx_sum(seq![]) == 0 && rx_sum(seq![]) == 0);
    if a.len() > 0 {
        law_link_rates_add_up(a.drop_last(), seq![], x);
    }
    if b.len() == 0 {
        assert(a + b =~= a);
    } else {
        law_link_rates_add_up(a, b.drop_last(), x);
        law_link_rates_add_up(b.drop_last(), seq![], x);
        assert((a + b).drop_last() =~= a + b.drop_last());
        assert((a + b).last() == b.last());
    }
}

/// The row of an XGMI GPU names it by its index, shows how many of its links
/// are active and its bandwidth, carries its name, health and links, and counts
/// what its links sent and received together.
pub proof fn law_xgmi_row_describes_its_gpu(
    gpu: XgmiSnapshotView,
    prev: Option<XgmiSnapshotView>,
    elapsed_ns: u64,
)
    ensures
        xgmi_row(gpu, prev, elapsed_ns).dev_name == "amdgpu"@ + text::decimal(gpu.gpu_index as nat),
        xgmi::active_count(gpu.links) <= u32::MAX ==> xgmi_row(gpu, prev, elapsed_ns).port
            == xgmi::active_count(gpu.links),
        xgmi_row(gpu, prev, elapsed_ns).link_mbps == gpu.link_mbps,
        xgmi_row(gpu, prev, elapsed_ns).port_label == Some(
            text::decimal(xgmi_row(gpu, prev, elapsed_ns).port as nat) + seq!['/'] + text::decimal(
                gpu.link_count as nat,
            ),
        ),
        xgmi_row(gpu, prev, elapsed_ns).class == DeviceClass::Xgmi,
        xgmi_row(gpu, prev, elapsed_ns).nvlink is None,
        idle(xgmi_row(gpu, prev, elapsed_ns).tx_pkts),
        idle(xgmi_row(gpu, prev, elapsed_ns).rx_pkts),
        idle(xgmi_row(gpu, prev, elapsed_ns).rx_drops),
        match xgmi_row(gpu, prev, elapsed_ns).xgmi {
            Some(m) => {
                &&& m.gpu_index == gpu.gpu_index
                &&& m.gpu_name == gpu.gpu_name
                &&& m.metrics == gpu.metrics
                &&& m.active_links == xgmi_row(gpu, prev, elapsed_ns).port
                &&& xgmi_row(gpu, prev, elapsed_ns).tx_bytes matches MeanView::One(r) && r.delta
                    == tx_sum(m.links) && r.elapsed_ns == elapsed_ns
                &&& xgmi_row(gpu, prev, elapsed_ns).rx_bytes matches MeanView::One(r) && r.delta
                    == rx_sum(m.links) && r.elapsed_ns == elapsed_ns
            },
            None => false,
        },
{
    let rates = xgmi_link_rates(gpu.links, prev, elapsed_ns);
    if rates.len() > 0 {
        law_link_rates_add_up(rates, seq![], rates[0]);
    }
}

/// An XGMI GPU shows its correctable errors first and its uncorrectable ones
/// after them, each with its own advance.
pub proof fn law_xgmi_row_shows_its_errors(
    gpu: XgmiSnapshotView,
    prev: XgmiSnapshotView,
    elapsed_ns: u64,
)
    ensures
        xgmi_row(gpu, Some(prev), elapsed_ns).counter_rates.len() == (if gpu.correctable_errors is Some {
            1int
        } else {
            0
        }) + (if gpu.uncorrectable_errors is Some {
            1int
        } else {
            0
        }),
        gpu.correctable_errors matches Some(v) ==> shows_errors(
            xgmi_row(gpu, Some(prev), elapsed_ns).counter_rates[0],
            "xgmi_wafl_ce"@,
            v,
            prev.correctable_errors,
            elapsed_ns,
        ),
        gpu.uncorrectable_errors matches Some(v) ==> shows_errors(
            xgmi_row(gpu, Some(prev), elapsed_ns).counter_rates.last(),
            "xgmi_wafl_ue"@,
            v,
            prev.uncorrectable_errors,
            elapsed_ns,
        ),
{
}

/// The GPUs of a sample get one row each, in order, compared with the same GPU
/// of the sample before.
pub proof fn law_gpu_rows_in_order(
    nv_prev: Seq<NvLinkSnapshotView>,
    nv: Seq<NvLinkSnapshotView>,
    xgmi_prev: Seq<XgmiSnapshotView>,
    amd: Seq<XgmiSnapshotView>,
    elapsed_ns: u64,
    i: int,
    k: int,
)
    ensures
        nv_rows(nv_prev, nv, elapsed_ns).len() == nv.len(),
        xgmi_rows(xgmi_prev, amd, elapsed_ns).len() == amd.len(),
        0 <= i < nv.len() && is_first_nv_gpu(nv_prev, k, nv[i].gpu_index) ==> nv_rows(
            nv_prev,
            nv,
            elapsed_ns,
        )[i] == nv_row(nv[i], Some(nv_prev[k]), elapsed_ns),
        0 <= i < amd.len() && is_first_xgmi_gpu(xgmi_prev, k, amd[i].gpu_index) ==> xgmi_rows(
            xgmi_prev,
            amd,
            elapsed_ns,
        )[i] == xgmi_row(amd[i], Some(xgmi_prev[k]), elapsed_ns),
{
    if 0 <= i < nv.len() {
        law_nv_gpu_is_found(nv_prev, nv[i].gpu_index, k);
    }
    if 0 <= i < amd.len() {
        law_xgmi_gpu_is_found(xgmi_prev, amd[i].gpu_index, k);
    }
}

proof fn lemma_rate_found(rates: Seq<CounterRateView>, name: Seq<char>, k: int)
    requires
        0 <= k < rates.len(),
        rates[k].name == name,
        forall|j: int| 0 <= j < k ==> (#[trigger] rates[j]).name != name,
    ensures
        rate_named(rates, name) == rates[k].rate,
    decreases rates.len(),
{
    if k > 0 {
        let rest = rates.drop_first();
        assert(rates[0].name != name);
        assert forall|j: int| 0 <= j < k - 1 implies (#[trigger] rest[j]).name != name by {
            assert(rates[j + 1].name != name);
        }
        lemma_rate_found(rest, name, k - 1);
    }
}

proof fn lemma_row_figure(
    curr: PortStatView,
    prev: PortStatView,
    elapsed_ns: u64,
    name: Seq<char>,
    k: int,
    earlier: u64,
)
    requires
        stat::is_first(curr.counters, k, name),
        metrics::shows(prev, name, earlier),
    ensures
        metrics::measures(
            rate_named(metrics::rates_of(curr, Some(prev), elapsed_ns), name),
            curr.counters[k].value,
            earlier,
            elapsed_ns,
        ),
{
    let rates = metrics::rates_of(curr, Some(prev), elapsed_ns);
    metrics::law_each_counter_has_its_rate(curr, prev, elapsed_ns, k, earlier);
    assert forall|j: int| 0 <= j < k implies (#[trigger] rates[j]).name != name by {
        assert(curr.counters[j].name != name);
    }
    lemma_rate_found(rates, name, k);
}

/// The five figures of a port's row are the advances of the counters they are
/// named after, each of its own counter and of no other.
pub proof fn law_row_figures_follow_their_counters(
    curr: PortStatView,
    prev: PortStatView,
    elapsed_ns: u64,
    name: Seq<char>,
    k: int,
    earlier: u64,
)
    requires
        stat::is_first(curr.counters, k, name),
        metrics::shows(prev, name, earlier),
    ensures
        name == "tx_bytes"@ ==> metrics::measures(
            port_row(curr, Some(prev), elapsed_ns).tx_bytes,
            curr.counters[k].value,
            earlier,
            elapsed_ns,
        ),
        name == "rx_bytes"@ ==> metrics::measures(
            port_row(curr, Some(prev), elapsed_ns).rx_bytes,
            curr.counters[k].value,
            earlier,
            elapsed_ns,
        ),
        name == "tx_pkts"@ ==> metrics::measures(
            port_row(curr, Some(prev), elapsed_ns).tx_pkts,
            curr.counters[k].value,
            earlier,
            elapsed_ns,
        ),
        name == "rx_pkts"@ ==> metrics::measures(
            port_row(curr, Some(prev), elapsed_ns).rx_pkts,
            curr.counters[k].value,
            earlier,
            elapsed_ns,
        ),
        name == "rx_drops"@ ==> metrics::measures(
            port_row(curr, Some(prev), elapsed_ns).rx_drops,
            curr.counters[k].value,
            earlier,
            elapsed_ns,
        ),
{
    lemma_row_figure(curr, prev, elapsed_ns, name, k, earlier);
}

/// Every port of a reading gets one row, in order, with its device, number, link
/// rate and counters, compared with the same port of the reading before.
pub proof fn law_port_rows_in_order(
    prev: Seq<PortStatView>,
    curr: Seq<PortStatView>,
    elapsed_ns: u64,
    i: int,
    k: int,
)
    requires
        0 <= i < curr.len(),
    ensures
        port_rows(prev, curr, elapsed_ns).len() == curr.len(),
        port_rows(prev, curr, elapsed_ns)[i].dev_name == curr[i].dev_name,
        port_rows(prev, curr, elapsed_ns)[i].port == curr[i].port,
        port_rows(prev, curr, elapsed_ns)[i].link_mbps == curr[i].link_mbps,
        port_rows(prev, curr, elapsed_ns)[i].class == DeviceClass::Rdma,
        port_rows(prev, curr, elapsed_ns)[i].nvlink is None,
        port_rows(prev, curr, elapsed_ns)[i].xgmi is None,
        port_rows(prev, curr, elapsed_ns)[i].port_label is None,
        metrics::is_first_port(prev, k, curr[i].dev_name, curr[i].port) ==> port_rows(
            prev,
            curr,
            elapsed_ns,
        )[i] == port_row(curr[i], Some(prev[k]), elapsed_ns) && port_rows(
            prev,
            curr,
            elapsed_ns,
        )[i].counter_rates == metrics::rates_of(curr[i], Some(prev[k]), elapsed_ns),
        metrics::no_such_port(prev, curr[i].dev_name, curr[i].port) ==> port_rows(
            prev,
            curr,
            elapsed_ns,
        )[i] == port_row(curr[i], None, elapsed_ns),
{
    metrics::law_port_is_found(prev, curr[i].dev_name, curr[i].port, k);
}

/// Two ports of one device never share a key, nor do a port and its device.
pub proof fn law_ports_have_their_own_keys(a: RowView, b: RowView)
    requires
        a.nvlink is None && a.xgmi is None,
        b.nvlink is None && b.xgmi is None,
        a.dev_name == b.dev_name,
        a.port != b.port,
    ensures
        row_key(a) != row_key(b),
        row_key(a) != a.dev_name,
{
    let da = text::decimal(a.port as nat);
    let db = text::decimal(b.port as nat);
    text::law_decimal_round_trip(a.port as nat, u32::MAX as nat);
    text::law_decimal_round_trip(b.port as nat, u32::MAX as nat);
    let n = a.dev_name.len() as int;
    assert(row_key(a).skip(n + 1) =~= da);
    assert(row_key(b).skip(n + 1) =~= db);
    assert(row_key(a).len() > n);
}

/// The key of a GPU's row is the name of its device.
pub proof fn law_gpu_key_is_its_name(t: RowView)
    requires
        t.nvlink is Some || t.xgmi is Some,
    ensures
        row_key(t) == t.dev_name,
{
}

/// A row is placed by where the reference holds its key, last of all where the
/// reference does not hold it.
pub proof fn law_rank_is_the_place(reference: Seq<RowView>, key: Seq<char>, k: int)
    ensures
        0 <= k < reference.len() && row_key(reference[k]) == key && (forall|j: int|
            k < j < reference.len() ==> row_key(#[trigger] reference[j]) != key) ==> rank_in(
            reference,
            key,
        ) == k,
        (forall|j: int| 0 <= j < reference.len() ==> row_key(#[trigger] reference[j]) != key)
            ==> rank_in(reference, key) == usize::MAX,
    decreases reference.len(),
{
    if reference.len() > 0 {
        let front = reference.drop_last();
        law_rank_is_the_place(front, key, k);
        assert(reference.last() == reference[reference.len() - 1]);
        assert forall|j: int| 0 <= j < front.len() implies #[trigger] front[j]
            == reference[j] by {}
    }
}

/// Rows that are placed like a reference stay the same rows, and none stands
/// before one that the reference has earlier.
pub proof fn law_rows_follow_the_reference(rows: Seq<RowView>, reference: Seq<RowView>)
    ensures
        ordered_like(rows, reference).len() == rows.len(),
        forall|i: int, j: int|
            0 <= i && j == i + 1 && j < rows.len() ==> rank_in(
                reference,
                row_key(#[trigger] ordered_like(rows, reference)[i]),
            ) <= rank_in(reference, row_key(#[trigger] ordered_like(rows, reference)[j])),
        forall|i: int|
            0 <= i < rows.len() ==> rows.contains(#[trigger] ordered_like(rows, reference)[i]),
{
    let all = ranked(rows, reference);
    let s = lists::sorted::<RankedRow>(all);
    lists::law_sorting_keeps_records::<RankedRow>(all);
    lists::law_sorted_is_in_order::<RankedRow>(all);
    assert forall|i: int| 0 <= i < s.len() implies all.contains(#[trigger] s[i]) by {
        broadcast use vstd::seq_lib::group_to_multiset_ensures;
        assert(s.to_multiset().count(s[i]) > 0);
        assert(all.to_multiset().count(s[i]) > 0);
    }
    assert forall|i: int| 0 <= i < rows.len() implies rows.contains(
        #[trigger] ordered_like(rows, reference)[i],
    ) && s[i].0 == rank_in(reference, row_key(ordered_like(rows, reference)[i])) by {
        let k = all.index_of(s[i]);
        assert(all.contains(s[i]));
        assert(all[k] == s[i]);
        assert(rows[k] == s[i].1);
    }
    assert forall|i: int, j: int| 0 <= i && j == i + 1 && j < rows.len() implies rank_in(
        reference,
        row_key(#[trigger] ordered_like(rows, reference)[i]),
    ) <= rank_in(reference, row_key(#[trigger] ordered_like(rows, reference)[j])) by {
        assert(rows.contains(ordered_like(rows, reference)[i]));
        assert(rows.contains(ordered_like(rows, reference)[j]));
        assert(!<RankedRow as lists::Ordered>::less(s[j], s[i]));
    }
}

/// What a value holds is what its fields hold, each under its own name.
pub proof fn law_views_hold_every_field(
    nv_link_rate: NvLinkRate,
    xgmi_link_rate: XgmiLinkRate,
    nv_link_throughput_meta: NvLinkThroughputMeta,
    xgmi_throughput_meta: XgmiThroughputMeta,
    port_throughput: PortThroughput,
)
    ensures
        nv_link_rate@.link == nv_link_rate.link@,
        nv_link_rate@.tx_rate == nv_link_rate.tx_rate,
        nv_link_rate@.rx_rate == nv_link_rate.rx_rate,
        xgmi_link_rate@.link == xgmi_link_rate.link@,
        xgmi_link_rate@.tx_rate == xgmi_link_rate.tx_rate,
        xgmi_link_rate@.rx_rate == xgmi_link_rate.rx_rate,
        nv_link_throughput_meta@.gpu_index == nv_link_throughput_meta.gpu_index,
        nv_link_throughput_meta@.gpu_name == nv_link_throughput_meta.gpu_name@,
        nv_link_throughput_meta@.active_links == nv_link_throughput_meta.active_links,
        nv_link_throughput_meta@.links == lists::views(nv_link_throughput_meta.links@),
        nv_link_throughput_meta@.metrics == nv_link_throughput_meta.metrics,
        xgmi_throughput_meta@.gpu_index == xgmi_throughput_meta.gpu_index,
        xgmi_throughput_meta@.gpu_name == xgmi_throughput_meta.gpu_name@,
        xgmi_throughput_meta@.active_links == xgmi_throughput_meta.active_links,
        xgmi_throughput_meta@.links == lists::views(xgmi_throughput_meta.links@),
        xgmi_throughput_meta@.metrics == xgmi_throughput_meta.metrics,
        port_throughput@.dev_name == port_throughput.dev_name@,
        port_throughput@.port == port_throughput.port,
        port_throughput@.link_mbps == port_throughput.link_mbps,
        port_throughput@.tx_bytes == port_throughput.tx_bytes@,
        port_throughput@.rx_bytes == port_throughput.rx_bytes@,
        port_throughput@.tx_pkts == port_throughput.tx_pkts@,
        port_throughput@.rx_pkts == port_throughput.rx_pkts@,
        port_throughput@.rx_drops == port_throughput.rx_drops@,
        port_throughput@.counter_rates == lists::views(port_throughput.counter_rates@),
        port_throughput@.port_label == lists::opt_text(port_throughput.port_label),
        port_throughput@.nvlink == lists::opt_view(port_throughput.nvlink),
        port_throughput@.xgmi == lists::opt_view(port_throughput.xgmi),
        port_throughput@.class == port_throughput.class,
{
}

} // verus!
