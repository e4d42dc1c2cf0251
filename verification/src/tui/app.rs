//! State of the interface: what was sampled, what is shown and what the user
//! has chosen. Times are in nanoseconds of one monotonic clock.

use vstd::prelude::*;

use crate::gpu::GpuMetrics;
use crate::lists;
use crate::metrics;
use crate::metrics::{Mean, MeanView};
use crate::nvlink::{NvLinkSnapshot, NvLinkSnapshotView};
use crate::sampler::{IfStats, IfStatsView, Sample, SampleView, Snapshot, SnapshotView};
use crate::stat::{PortStat, PortStatView, ProcessRdmaInfo, ProcessRdmaInfoView};
use crate::text;
use crate::trace;
use crate::trace::{PortMetrics, PortMetricsView, Recorder, RecorderView};
use crate::tui::columns;
use crate::tui::columns::{ColumnView, DeviceClass, TableColumn};
use crate::tui::rolling;
use crate::tui::rolling::{RollingAvgState, RollingView};
use crate::tui::rows;
use crate::tui::rows::{PortThroughput, RowView};
use crate::tui::sysinfo::{CpuUsage, SysInfo, SysInfoView};
use crate::xgmi::{XgmiSnapshot, XgmiSnapshotView};

verus! {

/// Stats refresh interval bounds. Sampling runs on a background thread, so
/// the floor only bounds sampler load; it stays above the guard against
/// duplicate snapshots.
pub const REFRESH_DEFAULT_NS: u64 = 1_000_000_000;

pub const REFRESH_MIN_NS: u64 = 200_000_000;

pub const REFRESH_MAX_NS: u64 = 10_000_000_000;

pub const REFRESH_STEP_NS: u64 = 500_000_000;

/// Snapshots that follow each other more closely than this are duplicates.
pub const DUPLICATE_NS: u64 = 100_000_000;

/// The entries that a history keeps.
pub const HISTORY_LEN: usize = 60;

/// A list with one more entry; the oldest leaves a full one.
pub open spec fn capped_push<T>(s: Seq<T>, x: T) -> Seq<T> {
    if s.len() >= HISTORY_LEN {
        s.drop_first().push(x)
    } else {
        s.push(x)
    }
}

/// The recent rates of one device, oldest first, and the recent utilisation
/// of a GPU.
#[derive(Debug)]
pub struct DeviceHistory {
    pub tx: Vec<Mean>,
    pub rx: Vec<Mean>,
    pub util: Vec<u32>,
}

/// What a history holds.
#[verifier::ext_equal]
pub struct HistoryView {
    pub tx: Seq<MeanView>,
    pub rx: Seq<MeanView>,
    pub util: Seq<u32>,
}

impl View for DeviceHistory {
    type V = HistoryView;

    open spec fn view(&self) -> HistoryView {
        HistoryView {
            tx: lists::views(self.tx@),
            rx: lists::views(self.rx@),
            util: self.util@,
        }
    }
}

/// A history before its first entry.
pub open spec fn empty_history() -> HistoryView {
    HistoryView { tx: seq![], rx: seq![], util: seq![] }
}

/// A history with one more pair of rates.
pub open spec fn with_rates(h: HistoryView, tx: MeanView, rx: MeanView) -> HistoryView {
    HistoryView { tx: capped_push(h.tx, tx), rx: capped_push(h.rx, rx), ..h }
}

impl DeviceHistory {
    pub fn new() -> (r: Self)
        ensures
            r@ == empty_history(),
    {
        let r = DeviceHistory { tx: Vec::new(), rx: Vec::new(), util: Vec::new() };
        assert(lists::views(r.tx@) =~= seq![]);
        assert(lists::views(r.rx@) =~= seq![]);
        r
    }

    pub fn push(&mut self, tx: Mean, rx: Mean)
        requires
            old(self)@.tx.len() == old(self)@.rx.len(),
        ensures
            final(self)@ == with_rates(old(self)@, tx@, rx@),
    {
        assert(self@.tx.len() == self.tx@.len() && self@.rx.len() == self.rx@.len());
        let ghost tx0 = lists::views(self.tx@);
        let ghost rx0 = lists::views(self.rx@);
        if self.tx.len() >= HISTORY_LEN {
            self.tx.remove(0);
            self.rx.remove(0);
            assert(lists::views(self.tx@) =~= tx0.drop_first());
            assert(lists::views(self.rx@) =~= rx0.drop_first());
        }
        proof {
            lists::lemma_views_push(self.tx@, tx);
            lists::lemma_views_push(self.rx@, rx);
        }
        self.tx.push(tx);
        self.rx.push(rx);
    }

    pub fn push_util(&mut self, util: u32)
        ensures
            final(self)@ == (HistoryView {
                util: capped_push(old(self)@.util, util),
                ..old(self)@
            }),
    {
        let ghost u0 = self.util@;
        if self.util.len() >= HISTORY_LEN {
            self.util.remove(0);
            assert(self.util@ =~= u0.drop_first());
        }
        self.util.push(util);
    }
}

/// The history of one device.
#[derive(Debug)]
pub struct HistoryEntry {
    pub dev_name: String,
    pub history: DeviceHistory,
}

/// What the history of a device holds.
#[verifier::ext_equal]
pub struct HistoryEntryView {
    pub dev_name: Seq<char>,
    pub history: HistoryView,
}

impl View for HistoryEntry {
    type V = HistoryEntryView;

    open spec fn view(&self) -> HistoryEntryView {
        HistoryEntryView { dev_name: self.dev_name@, history: self.history@ }
    }
}

/// Where the history of a device stands.
pub open spec fn history_index(h: Seq<HistoryEntryView>, dev: Seq<char>) -> Option<int>
    decreases h.len(),
{
    if h.len() == 0 {
        None
    } else if h.last().dev_name == dev {
        Some(h.len() - 1)
    } else {
        history_index(h.drop_last(), dev)
    }
}

/// The history of a device.
pub open spec fn history_at(h: Seq<HistoryEntryView>, dev: Seq<char>) -> Option<HistoryView> {
    match history_index(h, dev) {
        Some(i) => Some(h[i].history),
        None => None,
    }
}

/// The utilisation that a row carries: that of its NVLink metrics, or else of
/// its XGMI metrics.
pub open spec fn util_of(t: RowView) -> Option<u32> {
    let nv = match t.nvlink {
        Some(m) => m.metrics,
        None => None,
    };
    let metrics = match nv {
        Some(m) => Some(m),
        None => match t.xgmi {
            Some(m) => m.metrics,
            None => None,
        },
    };
    match metrics {
        Some(m) => m.util_pct,
        None => None,
    }
}

fn row_util(t: &PortThroughput) -> (r: Option<u32>)
    ensures
        r == util_of(t@),
{
    let nv: Option<GpuMetrics> = match &t.nvlink {
        Some(m) => m.metrics,
        None => None,
    };
    let found: Option<GpuMetrics> = match nv {
        Some(m) => Some(m),
        None => match &t.xgmi {
            Some(m) => m.metrics,
            None => None,
        },
    };
    match found {
        Some(m) => m.util_pct,
        None => None,
    }
}

/// The history of a device with what one row shows.
pub open spec fn with_row(h: HistoryView, t: RowView) -> HistoryView {
    let rated = with_rates(h, t.tx_bytes, t.rx_bytes);
    match util_of(t) {
        Some(u) => HistoryView { util: capped_push(rated.util, u), ..rated },
        None => rated,
    }
}

/// All histories with what one row shows.
pub open spec fn history_with(h: Seq<HistoryEntryView>, t: RowView) -> Seq<HistoryEntryView> {
    match history_index(h, t.dev_name) {
        Some(i) => h.update(
            i,
            HistoryEntryView { dev_name: t.dev_name, history: with_row(h[i].history, t) },
        ),
        None => h.push(
            HistoryEntryView { dev_name: t.dev_name, history: with_row(empty_history(), t) },
        ),
    }
}

/// All histories with what some rows show.
pub open spec fn history_with_all(h: Seq<HistoryEntryView>, rows: Seq<RowView>) -> Seq<
    HistoryEntryView,
>
    decreases rows.len(),
{
    if rows.len() == 0 {
        h
    } else {
        history_with(history_with_all(h, rows.drop_last()), rows.last())
    }
}

/// Whether no device has two histories.
pub open spec fn names_unique(h: Seq<HistoryEntryView>) -> bool {
    forall|i: int, j: int|
        #![trigger h[i], h[j]]
        0 <= i < j < h.len() ==> h[i].dev_name != h[j].dev_name
}

/// Whether every device has one history, with as many entries for both
/// directions and none more than it keeps.
pub open spec fn histories_ok(h: Seq<HistoryEntryView>) -> bool {
    &&& names_unique(h)
    &&& forall|i: int|
        0 <= i < h.len() ==> {
            let x = (#[trigger] h[i]).history;
            x.tx.len() == x.rx.len() && x.tx.len() <= HISTORY_LEN && x.util.len() <= HISTORY_LEN
        }
}

proof fn lemma_history_index(h: Seq<HistoryEntryView>, dev: Seq<char>)
    ensures
        match history_index(h, dev) {
            Some(i) => 0 <= i < h.len() && h[i].dev_name == dev,
            None => forall|i: int| 0 <= i < h.len() ==> (#[trigger] h[i]).dev_name != dev,
        },
    decreases h.len(),
{
    if h.len() > 0 && h.last().dev_name != dev {
        lemma_history_index(h.drop_last(), dev);
        if history_index(h, dev) is None {
            assert forall|i: int| 0 <= i < h.len() implies (#[trigger] h[i]).dev_name != dev by {
                if i < h.len() - 1 {
                    assert(h[i] == h.drop_last()[i]);
                }
            }
        }
    }
}

/// The histories stay even and bounded, and each device keeps one.
pub proof fn law_histories_stay_ok(h: Seq<HistoryEntryView>, rows: Seq<RowView>)
    requires
        histories_ok(h),
    ensures
        histories_ok(history_with_all(h, rows)),
    decreases rows.len(),
{
    if rows.len() > 0 {
        law_histories_stay_ok(h, rows.drop_last());
        lemma_history_index(history_with_all(h, rows.drop_last()), rows.last().dev_name);
    }
}

fn find_history(h: &[HistoryEntry], dev: &str) -> (r: Option<usize>)
    ensures
        match history_index(lists::views(h@), dev@) {
            Some(i) => r is Some && r->0 == i && i < h@.len(),
            None => r is None,
        },
{
    let ghost all = lists::views(h@);
    let mut i: usize = h.len();
    assert(all.take(i as int) =~= all);
    while i > 0
        invariant
            i <= h.len(),
            all == lists::views(h@),
            history_index(all, dev@) == history_index(all.take(i as int), dev@),
        decreases i,
    {
        proof {
            text::lemma_take_step(all, i - 1);
            assert(all[i - 1] == h@[i - 1]@);
        }
        if text::same(h[i - 1].dev_name.as_str(), dev) {
            return Some(i - 1);
        }
        i -= 1;
    }
    None
}

fn extend_history(entry: &mut DeviceHistory, t: &PortThroughput)
    requires
        old(entry)@.tx.len() == old(entry)@.rx.len(),
    ensures
        final(entry)@ == with_row(old(entry)@, t@),
{
    entry.push(t.tx_bytes.clone(), t.rx_bytes.clone());
    if let Some(u) = row_util(t) {
        entry.push_util(u);
    }
}

/// Extends the history of every device by what its row shows.
pub fn extend_histories(history: &mut Vec<HistoryEntry>, rows: &[PortThroughput])
    requires
        histories_ok(lists::views(old(history)@)),
    ensures
        lists::views(final(history)@) == history_with_all(
            lists::views(old(history)@),
            lists::views(rows@),
        ),
        histories_ok(lists::views(final(history)@)),
{
    let ghost start = lists::views(history@);
    let ghost all = lists::views(rows@);
    let mut i: usize = 0;
    assert(all.take(0) =~= seq![]);
    while i < rows.len()
        invariant
            i <= rows.len(),
            all == lists::views(rows@),
            histories_ok(start),
            lists::views(history@) == history_with_all(start, all.take(i as int)),
            histories_ok(lists::views(history@)),
        decreases rows.len() - i,
    {
        let t = &rows[i];
        proof {
            text::lemma_take_step(all, i as int);
            assert(all[i as int] == t@);
            lemma_history_index(lists::views(history@), t.dev_name@);
        }
        let ghost before = lists::views(history@);
        match find_history(history.as_slice(), t.dev_name.as_str()) {
            Some(k) => {
                assert(before[k as int] == history@[k as int]@);
                let mut entry = history.remove(k);
                extend_history(&mut entry.history, t);
                history.insert(k, entry);
                assert(lists::views(history@) =~= before.update(k as int, entry@));
            },
            None => {
                let mut fresh = DeviceHistory::new();
                extend_history(&mut fresh, t);
                let entry = HistoryEntry { dev_name: t.dev_name.clone(), history: fresh };
                proof {
                    lists::lemma_views_push(history@, entry);
                }
                history.push(entry);
            },
        }
        proof {
            law_histories_stay_ok(start, all.take(i + 1));
        }
        i += 1;
    }
    assert(all.take(all.len() as int) =~= all);
}

/// The byte counters of the network interfaces at both ends of a span.
#[derive(Debug)]
pub struct NetWindow {
    pub prev: Vec<IfStats>,
    pub curr: Vec<IfStats>,
    pub elapsed_ns: u64,
}

/// What a span of network counters holds.
#[verifier::ext_equal]
pub struct NetView {
    pub prev: Seq<IfStatsView>,
    pub curr: Seq<IfStatsView>,
    pub elapsed_ns: u64,
}

impl View for NetWindow {
    type V = NetView;

    open spec fn view(&self) -> NetView {
        NetView {
            prev: lists::views(self.prev@),
            curr: lists::views(self.curr@),
            elapsed_ns: self.elapsed_ns,
        }
    }
}

/// The counters of an interface, where it was read.
pub open spec fn interface_at(all: Seq<IfStatsView>, name: Seq<char>) -> Option<IfStatsView>
    decreases all.len(),
{
    if all.len() == 0 {
        None
    } else if all[0].name == name {
        Some(all[0])
    } else {
        interface_at(all.drop_first(), name)
    }
}

/// The bytes that the interfaces received and sent over a span; one that was
/// not there at its start counts nothing.
pub open spec fn net_totals(prev: Seq<IfStatsView>, curr: Seq<IfStatsView>) -> (nat, nat)
    decreases curr.len(),
{
    if curr.len() == 0 {
        (0, 0)
    } else {
        let before = net_totals(prev, curr.drop_last());
        let now = curr.last();
        match interface_at(prev, now.name) {
            Some(p) => (
                before.0 + metrics::advance(now.rx_bytes, p.rx_bytes) as nat,
                before.1 + metrics::advance(now.tx_bytes, p.tx_bytes) as nat,
            ),
            None => before,
        }
    }
}

fn find_interface<'a>(all: &'a [IfStats], name: &str) -> (r: Option<&'a IfStats>)
    ensures
        lists::opt_view(r) == interface_at(lists::views(all@), name@),
{
    let ghost seen = lists::views(all@);
    let mut i: usize = 0;
    assert(seen.skip(0) =~= seen);
    while i < all.len()
        invariant
            i <= all.len(),
            seen == lists::views(all@),
            interface_at(seen, name@) == interface_at(seen.skip(i as int), name@),
        decreases all.len() - i,
    {
        assert(seen.skip(i as int)[0] == all@[i as int]@);
        if text::same(all[i].name.as_str(), name) {
            return Some(&all[i]);
        }
        assert(seen.skip(i as int).drop_first() =~= seen.skip(i + 1));
        i += 1;
    }
    None
}

impl NetWindow {
    /// The bytes received and sent over the span.
    pub fn totals(&self) -> (r: (u128, u128))
        ensures
            r.0 == net_totals(self@.prev, self@.curr).0,
            r.1 == net_totals(self@.prev, self@.curr).1,
    {
        let ghost all = lists::views(self.curr@);
        let mut rx: u128 = 0;
        let mut tx: u128 = 0;
        let mut i: usize = 0;
        while i < self.curr.len()
            invariant
                i <= self.curr.len(),
                all == lists::views(self.curr@),
                rx == net_totals(self@.prev, all.take(i as int)).0,
                tx == net_totals(self@.prev, all.take(i as int)).1,
                rx <= i * 0xffff_ffff_ffff_ffff,
                tx <= i * 0xffff_ffff_ffff_ffff,
            decreases self.curr.len() - i,
        {
            let now = &self.curr[i];
            proof {
                text::lemma_take_step(all, i as int);
                assert(all[i as int] == now@);
                assert((i + 1) * 0xffff_ffff_ffff_ffff == i * 0xffff_ffff_ffff_ffff
                    + 0xffff_ffff_ffff_ffff) by (nonlinear_arith);
            }
            if let Some(p) = find_interface(self.prev.as_slice(), now.name.as_str()) {
                assert(i * 0xffff_ffff_ffff_ffff <= 0xffff_ffff_ffff_ffff * 0xffff_ffff_ffff_ffff)
                    by (nonlinear_arith)
                    requires
                        i <= 0xffff_ffff_ffff_ffff,
                ;
                rx = rx + now.rx_bytes.saturating_sub(p.rx_bytes) as u128;
                tx = tx + now.tx_bytes.saturating_sub(p.tx_bytes) as u128;
            }
            i += 1;
        }
        assert(all.take(all.len() as int) =~= all);
        (rx, tx)
    }
}

/// The row that each tab had selected when it was left; none for a tab that
/// has not been left yet.
#[derive(Clone, Copy, Debug, PartialEq, Eq, Structural)]
pub struct TabSelection {
    pub rdma: Option<usize>,
    pub xgmi: Option<usize>,
    pub nvlink: Option<usize>,
}

impl TabSelection {
    /// The row remembered for a tab; the first one when there is none.
    pub open spec fn row(self, class: DeviceClass) -> usize {
        let kept = match class {
            DeviceClass::Rdma => self.rdma,
            DeviceClass::Xgmi => self.xgmi,
            DeviceClass::Nvlink => self.nvlink,
        };
        match kept {
            Some(r) => r,
            None => 0,
        }
    }

    /// The selections with another one for a tab.
    pub open spec fn with(self, class: DeviceClass, row: usize) -> TabSelection {
        match class {
            DeviceClass::Rdma => TabSelection { rdma: Some(row), ..self },
            DeviceClass::Xgmi => TabSelection { xgmi: Some(row), ..self },
            DeviceClass::Nvlink => TabSelection { nvlink: Some(row), ..self },
        }
    }

    /// The row remembered for a tab.
    pub fn get(&self, class: DeviceClass) -> (r: usize)
        ensures
            r == self.row(class),
    {
        let kept: Option<usize> = match class {
            DeviceClass::Rdma => self.rdma,
            DeviceClass::Xgmi => self.xgmi,
            DeviceClass::Nvlink => self.nvlink,
        };
        match kept {
            Some(r) => r,
            None => 0,
        }
    }

    /// Remembers the row of a tab.
    pub fn insert(&mut self, class: DeviceClass, row: usize)
        ensures
            *final(self) == old(self).with(class, row),
    {
        match class {
            DeviceClass::Rdma => self.rdma = Some(row),
            DeviceClass::Xgmi => self.xgmi = Some(row),
            DeviceClass::Nvlink => self.nvlink = Some(row),
        }
    }
}

/// The whole state of the interface.
#[derive(Debug)]
pub struct App {
    pub should_quit: bool,
    pub throughputs: Vec<PortThroughput>,
    pub selected_row: usize,
    pub show_detail: bool,
    pub show_help: bool,
    pub processes: Vec<ProcessRdmaInfo>,
    pub detail_scroll: u16,
    pub detail_max_scroll: u16,
    /// The colour theme, by its number.
    pub theme: usize,
    /// How many themes there are.
    pub theme_count: usize,
    pub sysinfo: SysInfo,
    pub history: Vec<HistoryEntry>,
    pub cpu_history: Vec<CpuUsage>,
    pub prev_stats: Vec<PortStat>,
    pub prev_ifstats: Vec<IfStats>,
    // Per-subsystem baselines: each timestamp marks when its subsystem last
    // read successfully, so a failed read holds that subsystem's state and
    // the next success diffs over the true elapsed span.
    pub prev_stats_at: Option<u64>,
    pub prev_ifstats_at: Option<u64>,
    pub prev_nvlink_at: Option<u64>,
    pub prev_xgmi_at: Option<u64>,
    pub prev_taken_at: Option<u64>,
    pub rdma_rows: Vec<PortThroughput>,
    pub nvlink_rows: Vec<PortThroughput>,
    pub xgmi_rows: Vec<PortThroughput>,
    /// The span that network rates are computed over, once there is one.
    pub net: Option<NetWindow>,
    pub has_data: bool,
    /// Panic message from a dead sampler thread; None while it is alive.
    pub sampler_error: Option<String>,
    pub rolling_avg: RollingAvgState,
    pub show_rolling_avg: bool,
    pub show_window_input: bool,
    pub window_input_buf: String,
    pub columns: Vec<TableColumn>,
    pub show_column_picker: bool,
    pub column_picker_cursor: usize,
    pub h_scroll: usize,
    pub h_scroll_max: usize,
    pub table_offset: usize,
    pub refresh_interval_ns: u64,
    pub cached_display: Vec<PortThroughput>,
    /// Active Perfetto recorder when recording; None when idle.
    pub recorder: Option<Recorder>,
    /// Transient message shown after a recording is saved or fails.
    pub record_status: Option<String>,
    pub prev_nvlink: Vec<NvLinkSnapshot>,
    pub prev_xgmi: Vec<XgmiSnapshot>,
    pub active_tab: DeviceClass,
    pub seen_tabs: Vec<DeviceClass>,
    pub tab_selection: TabSelection,
}

/// What the state of the interface holds.
#[verifier::ext_equal]
pub struct AppView {
    pub should_quit: bool,
    pub throughputs: Seq<RowView>,
    pub selected_row: usize,
    pub show_detail: bool,
    pub show_help: bool,
    pub processes: Seq<ProcessRdmaInfoView>,
    pub detail_scroll: u16,
    pub detail_max_scroll: u16,
    pub theme: usize,
    pub theme_count: usize,
    pub sysinfo: SysInfoView,
    pub history: Seq<HistoryEntryView>,
    pub cpu_history: Seq<CpuUsage>,
    pub prev_stats: Seq<PortStatView>,
    pub prev_ifstats: Seq<IfStatsView>,
    pub prev_stats_at: Option<u64>,
    pub prev_ifstats_at: Option<u64>,
    pub prev_nvlink_at: Option<u64>,
    pub prev_xgmi_at: Option<u64>,
    pub prev_taken_at: Option<u64>,
    pub rdma_rows: Seq<RowView>,
    pub nvlink_rows: Seq<RowView>,
    pub xgmi_rows: Seq<RowView>,
    pub net: Option<NetView>,
    pub has_data: bool,
    pub sampler_error: Option<Seq<char>>,
    pub rolling_avg: RollingView,
    pub show_rolling_avg: bool,
    pub show_window_input: bool,
    pub window_input_buf: Seq<char>,
    pub columns: Seq<ColumnView>,
    pub show_column_picker: bool,
    pub column_picker_cursor: usize,
    pub h_scroll: usize,
    pub h_scroll_max: usize,
    pub table_offset: usize,
    pub refresh_interval_ns: u64,
    pub cached_display: Seq<RowView>,
    pub recorder: Option<RecorderView>,
    pub record_status: Option<Seq<char>>,
    pub prev_nvlink: Seq<NvLinkSnapshotView>,
    pub prev_xgmi: Seq<XgmiSnapshotView>,
    pub active_tab: DeviceClass,
    pub seen_tabs: Seq<DeviceClass>,
    pub tab_selection: TabSelection,
}

impl View for App {
    type V = AppView;

    open spec fn view(&self) -> AppView {
        AppView {
            should_quit: self.should_quit,
            throughputs: lists::views(self.throughputs@),
            selected_row: self.selected_row,
            show_detail: self.show_detail,
            show_help: self.show_help,
            processes: lists::views(self.processes@),
            detail_scroll: self.detail_scroll,
            detail_max_scroll: self.detail_max_scroll,
            theme: self.theme,
            theme_count: self.theme_count,
            sysinfo: self.sysinfo@,
            history: lists::views(self.history@),
            cpu_history: self.cpu_history@,
            prev_stats: lists::views(self.prev_stats@),
            prev_ifstats: lists::views(self.prev_ifstats@),
            prev_stats_at: self.prev_stats_at,
            prev_ifstats_at: self.prev_ifstats_at,
            prev_nvlink_at: self.prev_nvlink_at,
            prev_xgmi_at: self.prev_xgmi_at,
            prev_taken_at: self.prev_taken_at,
            rdma_rows: lists::views(self.rdma_rows@),
            nvlink_rows: lists::views(self.nvlink_rows@),
            xgmi_rows: lists::views(self.xgmi_rows@),
            net: lists::opt_view(self.net),
            has_data: self.has_data,
            sampler_error: lists::opt_text(self.sampler_error),
            rolling_avg: self.rolling_avg@,
            show_rolling_avg: self.show_rolling_avg,
            show_window_input: self.show_window_input,
            window_input_buf: self.window_input_buf@,
            columns: lists::views(self.columns@),
            show_column_picker: self.show_column_picker,
            column_picker_cursor: self.column_picker_cursor,
            h_scroll: self.h_scroll,
            h_scroll_max: self.h_scroll_max,
            table_offset: self.table_offset,
            refresh_interval_ns: self.refresh_interval_ns,
            cached_display: lists::views(self.cached_display@),
            recorder: lists::opt_view(self.recorder),
            record_status: lists::opt_text(self.record_status),
            prev_nvlink: lists::views(self.prev_nvlink@),
            prev_xgmi: lists::views(self.prev_xgmi@),
            active_tab: self.active_tab,
            seen_tabs: self.seen_tabs@,
            tab_selection: self.tab_selection,
        }
    }
}

/// Whether tabs stand in their order, none of them twice.
pub open spec fn tabs_in_order(tabs: Seq<DeviceClass>) -> bool {
    forall|i: int, j: int|
        0 <= i < j < tabs.len() ==> (#[trigger] tabs[i]).place() < (#[trigger] tabs[j]).place()
}

/// Whether the selected row is one of those shown, or the first when none is.
pub open spec fn selection_shown(a: AppView) -> bool {
    a.selected_row == 0 || a.selected_row < a.cached_display.len()
}

/// What holds of the interface at all times.
pub open spec fn app_ok(a: AppView) -> bool {
    &&& histories_ok(a.history)
    &&& a.cpu_history.len() <= HISTORY_LEN
    &&& 1 <= a.rolling_avg.window_secs <= 300
    &&& rolling::buffers_ok(a.rolling_avg.samples)
    &&& a.columns.len() >= 1
    &&& a.theme < a.theme_count
    &&& REFRESH_MIN_NS <= a.refresh_interval_ns <= REFRESH_MAX_NS
    &&& a.refresh_interval_ns % 100_000_000 == 0
    &&& selection_shown(a)
    &&& tabs_in_order(a.seen_tabs)
    &&& a.seen_tabs.contains(a.active_tab)
}

/// The state before the first snapshot.
pub open spec fn fresh_app(sysinfo: SysInfoView, themes: usize) -> AppView {
    AppView {
        should_quit: false,
        throughputs: seq![],
        selected_row: 0,
        show_detail: false,
        show_help: false,
        processes: seq![],
        detail_scroll: 0,
        detail_max_scroll: 0,
        theme: 0,
        theme_count: themes,
        sysinfo,
        history: seq![],
        cpu_history: seq![],
        prev_stats: seq![],
        prev_ifstats: seq![],
        prev_stats_at: None,
        prev_ifstats_at: None,
        prev_nvlink_at: None,
        prev_xgmi_at: None,
        prev_taken_at: None,
        rdma_rows: seq![],
        nvlink_rows: seq![],
        xgmi_rows: seq![],
        net: None,
        has_data: false,
        sampler_error: None,
        rolling_avg: RollingView { samples: seq![], window_secs: 5 },
        show_rolling_avg: false,
        show_window_input: false,
        window_input_buf: seq![],
        columns: columns::default_view(),
        show_column_picker: false,
        column_picker_cursor: 0,
        h_scroll: 0,
        h_scroll_max: 0,
        table_offset: 0,
        refresh_interval_ns: REFRESH_DEFAULT_NS,
        cached_display: seq![],
        recorder: None,
        record_status: None,
        prev_nvlink: seq![],
        prev_xgmi: seq![],
        active_tab: DeviceClass::Rdma,
        seen_tabs: seq![DeviceClass::Rdma],
        tab_selection: TabSelection { rdma: None, xgmi: None, nvlink: None },
    }
}

impl App {
    /// The state before the first snapshot, in the first of some themes.
    pub fn new(sysinfo: SysInfo, themes: usize) -> (r: Self)
        requires
            themes >= 1,
        ensures
            r@ == fresh_app(sysinfo@, themes),
            app_ok(r@),
    {
        let mut seen_tabs: Vec<DeviceClass> = Vec::new();
        seen_tabs.push(DeviceClass::Rdma);
        let r = App {
            should_quit: false,
            throughputs: Vec::new(),
            selected_row: 0,
            show_detail: false,
            show_help: false,
            processes: Vec::new(),
            detail_scroll: 0,
            detail_max_scroll: 0,
            theme: 0,
            theme_count: themes,
            sysinfo,
            history: Vec::new(),
            cpu_history: Vec::new(),
            prev_stats: Vec::new(),
            prev_ifstats: Vec::new(),
            prev_stats_at: None,
            prev_ifstats_at: None,
            prev_nvlink_at: None,
            prev_xgmi_at: None,
            prev_taken_at: None,
            rdma_rows: Vec::new(),
            nvlink_rows: Vec::new(),
            xgmi_rows: Vec::new(),
            net: None,
            has_data: false,
            sampler_error: None,
            rolling_avg: RollingAvgState::new(rolling::ROLLING_AVG_DEFAULT_WINDOW),
            show_rolling_avg: false,
            show_window_input: false,
            window_input_buf: String::new(),
            columns: columns::default_columns(),
            show_column_picker: false,
            column_picker_cursor: 0,
            h_scroll: 0,
            h_scroll_max: 0,
            table_offset: 0,
            refresh_interval_ns: REFRESH_DEFAULT_NS,
            cached_display: Vec::new(),
            recorder: None,
            record_status: None,
            prev_nvlink: Vec::new(),
            prev_xgmi: Vec::new(),
            active_tab: DeviceClass::Rdma,
            seen_tabs,
            tab_selection: TabSelection { rdma: None, xgmi: None, nvlink: None },
        };
        assert(r@ =~= fresh_app(sysinfo@, themes));
        assert(r@.seen_tabs[0] == DeviceClass::Rdma);
        r
    }
}

/// Whether some row belongs to a class.
pub open spec fn has_class(rows: Seq<RowView>, class: DeviceClass) -> bool {
    exists|i: int| 0 <= i < rows.len() && (#[trigger] rows[i]).class == class
}

/// The tabs with the one of a class, if it produced rows.
pub open spec fn tabs_with(
    seen: Seq<DeviceClass>,
    class: DeviceClass,
    rows: Seq<RowView>,
) -> Seq<DeviceClass> {
    if !seen.contains(class) && has_class(rows, class) {
        lists::sorted::<DeviceClass>(seen.push(class))
    } else {
        seen
    }
}

/// The tabs after some rows were produced.
pub open spec fn tabs_after(seen: Seq<DeviceClass>, rows: Seq<RowView>) -> Seq<DeviceClass> {
    tabs_with(tabs_with(seen, DeviceClass::Xgmi, rows), DeviceClass::Nvlink, rows)
}

fn contains_tab(tabs: &[DeviceClass], class: DeviceClass) -> (r: bool)
    ensures
        r == tabs@.contains(class),
{
    let mut i: usize = 0;
    while i < tabs.len()
        invariant
            i <= tabs.len(),
            forall|k: int| 0 <= k < i ==> tabs@[k] != class,
        decreases tabs.len() - i,
    {
        if tabs[i] == class {
            assert(tabs@[i as int] == class);
            return true;
        }
        i += 1;
    }
    false
}

fn produces(rows: &[PortThroughput], class: DeviceClass) -> (r: bool)
    ensures
        r == has_class(lists::views(rows@), class),
{
    let ghost all = lists::views(rows@);
    let mut i: usize = 0;
    while i < rows.len()
        invariant
            i <= rows.len(),
            all == lists::views(rows@),
            forall|k: int| 0 <= k < i ==> (#[trigger] all[k]).class != class,
        decreases rows.len() - i,
    {
        assert(all[i as int] == rows@[i as int]@);
        if rows[i].class == class {
            return true;
        }
        i += 1;
    }
    false
}

fn detect_tab(seen: &mut Vec<DeviceClass>, class: DeviceClass, rows: &[PortThroughput])
    ensures
        final(seen)@ == tabs_with(old(seen)@, class, lists::views(rows@)),
{
    if !contains_tab(seen.as_slice(), class) && produces(rows, class) {
        let mut tabs: Vec<DeviceClass> = Vec::new();
        core::mem::swap(&mut tabs, seen);
        let ghost before = tabs@;
        tabs.push(class);
        assert(lists::views(tabs@) =~= before.push(class));
        *seen = lists::sort(tabs);
        assert(lists::views(seen@) =~= seen@);
    }
}

/// A class's tab appears the first time it produces rows and stays for the
/// session, so a transient sampling failure cannot flicker it away.
pub fn detect_tabs(seen: &mut Vec<DeviceClass>, rows: &[PortThroughput])
    ensures
        final(seen)@ == tabs_after(old(seen)@, lists::views(rows@)),
{
    detect_tab(seen, DeviceClass::Xgmi, rows);
    detect_tab(seen, DeviceClass::Nvlink, rows);
}

proof fn lemma_tabs_sorted(tabs: Seq<DeviceClass>)
    requires
        tabs_in_order(tabs),
    ensures
        lists::sorted::<DeviceClass>(tabs) == tabs,
    decreases tabs.len(),
{
    if tabs.len() > 0 {
        lemma_tabs_sorted(tabs.drop_last());
        assert(tabs.drop_last().push(tabs.last()) =~= tabs);
        if tabs.len() > 1 {
            assert(tabs.drop_last().last() == tabs[tabs.len() - 2]);
        }
    }
}

proof fn lemma_tab_inserted(tabs: Seq<DeviceClass>, class: DeviceClass)
    requires
        tabs_in_order(tabs),
        !tabs.contains(class),
    ensures
        tabs_in_order(lists::inserted::<DeviceClass>(tabs, class)),
        forall|c: DeviceClass|
            #![trigger lists::inserted::<DeviceClass>(tabs, class).contains(c)]
            lists::inserted::<DeviceClass>(tabs, class).contains(c) == (tabs.contains(c) || c
                == class),
    decreases tabs.len(),
{
    let all = lists::inserted::<DeviceClass>(tabs, class);
    if tabs.len() == 0 || !(class.place() < tabs.last().place()) {
        assert(all == tabs.push(class));
        if tabs.len() > 0 {
            assert(tabs.contains(tabs.last()));
            assert forall|i: int| 0 <= i < tabs.len() implies (#[trigger] tabs[i]).place()
                < class.place() by {
                assert(tabs[i].place() <= tabs[tabs.len() - 1].place());
            }
        }
        assert forall|c: DeviceClass| #![trigger all.contains(c)]
            all.contains(c) == (tabs.contains(c) || c == class) by {
            if tabs.contains(c) {
                let i = tabs.index_of(c);
                assert(all[i] == c);
            }
            assert(all[tabs.len() as int] == class);
        }
    } else {
        let front = tabs.drop_last();
        assert forall|c: DeviceClass| front.contains(c) implies tabs.contains(c) by {
            let i = front.index_of(c);
            assert(tabs[i] == c);
        }
        lemma_tab_inserted(front, class);
        let before = lists::inserted::<DeviceClass>(front, class);
        assert(all == before.push(tabs.last()));
        assert forall|i: int| 0 <= i < before.len() implies (#[trigger] before[i]).place()
            < tabs.last().place() by {
            assert(before.contains(before[i]));
            if before[i] != class {
                let k = front.index_of(before[i]);
                assert(tabs[k] == before[i]);
                assert(tabs[k].place() < tabs[tabs.len() - 1].place());
            }
        }
        assert forall|c: DeviceClass| #![trigger all.contains(c)]
            all.contains(c) == (tabs.contains(c) || c == class) by {
            assert(all[before.len() as int] == tabs.last());
            assert(tabs[tabs.len() - 1] == tabs.last());
            if front.contains(c) || c == class {
                assert(before.contains(c));
                let i = before.index_of(c);
                assert(all[i] == c);
            }
            if tabs.contains(c) && c != tabs.last() {
                let i = tabs.index_of(c);
                assert(front[i] == c);
            }
            if all.contains(c) && c != tabs.last() {
                let i = all.index_of(c);
                assert(before[i] == c);
            }
        }
    }
}

proof fn lemma_tab_added(seen: Seq<DeviceClass>, class: DeviceClass, rows: Seq<RowView>)
    requires
        tabs_in_order(seen),
    ensures
        tabs_in_order(tabs_with(seen, class, rows)),
        forall|c: DeviceClass|
            #![trigger tabs_with(seen, class, rows).contains(c)]
            tabs_with(seen, class, rows).contains(c) == (seen.contains(c) || c == class
                && has_class(rows, c)),
{
    if !seen.contains(class) && has_class(rows, class) {
        lemma_tabs_sorted(seen);
        lemma_tab_inserted(seen, class);
        assert(seen.push(class).drop_last() =~= seen);
        assert(tabs_with(seen, class, rows) == lists::inserted::<DeviceClass>(seen, class));
    }
}

/// Tabs stay once they have appeared, keep their order and never appear
/// twice; a GPU tab appears only when its class has produced rows.
pub proof fn law_tabs_are_sticky(seen: Seq<DeviceClass>, rows: Seq<RowView>)
    requires
        tabs_in_order(seen),
    ensures
        tabs_in_order(tabs_after(seen, rows)),
        forall|c: DeviceClass|
            #![trigger tabs_after(seen, rows).contains(c)]
            tabs_after(seen, rows).contains(c) == (seen.contains(c) || c != DeviceClass::Rdma
                && has_class(rows, c)),
{
    lemma_tab_added(seen, DeviceClass::Xgmi, rows);
    lemma_tab_added(tabs_with(seen, DeviceClass::Xgmi, rows), DeviceClass::Nvlink, rows);
    assert forall|c: DeviceClass| #![trigger tabs_after(seen, rows).contains(c)]
        tabs_after(seen, rows).contains(c) == (seen.contains(c) || c != DeviceClass::Rdma
            && has_class(rows, c)) by {
        assert(tabs_with(seen, DeviceClass::Xgmi, rows).contains(c) == (seen.contains(c) || c
            == DeviceClass::Xgmi && has_class(rows, c)));
    }
}

/// The rows of one class, in their order.
pub open spec fn of_class(rows: Seq<RowView>, class: DeviceClass) -> Seq<RowView>
    decreases rows.len(),
{
    if rows.len() == 0 {
        seq![]
    } else if rows.last().class == class {
        of_class(rows.drop_last(), class).push(rows.last())
    } else {
        of_class(rows.drop_last(), class)
    }
}

/// The rows to show: the averages or the last rates, of the active tab.
pub open spec fn display_of(a: AppView) -> Seq<RowView> {
    let all = if a.show_rolling_avg {
        rows::ordered_like(
            rolling::averages_of(a.rolling_avg.samples, a.rolling_avg.window_secs),
            a.throughputs,
        )
    } else {
        a.throughputs
    };
    of_class(all, a.active_tab)
}

/// A row number brought into a list of some length.
pub open spec fn row_within(row: usize, len: nat) -> usize {
    if row < len {
        row
    } else if len == 0 {
        0
    } else {
        (len - 1) as usize
    }
}

/// The state with what is shown computed anew.
pub open spec fn recomputed(a: AppView) -> AppView {
    AppView {
        cached_display: display_of(a),
        selected_row: row_within(a.selected_row, display_of(a).len()),
        ..a
    }
}

fn keep_class(rows: Vec<PortThroughput>, class: DeviceClass) -> (r: Vec<PortThroughput>)
    ensures
        lists::views(r@) == of_class(lists::views(rows@), class),
{
    let ghost all = lists::views(rows@);
    let mut out: Vec<PortThroughput> = Vec::new();
    assert(lists::views(out@) =~= of_class(all.take(0), class));
    for t in it: rows
        invariant
            it.seq() == rows@,
            all == lists::views(rows@),
            lists::views(out@) == of_class(all.take(it.index() as int), class),
    {
        proof {
            text::lemma_take_step(all, it.index() as int);
            assert(all[it.index() as int] == t@);
            lists::lemma_views_push(out@, t);
        }
        if t.class == class {
            out.push(t);
        }
    }
    assert(all.take(all.len() as int) =~= all);
    out
}

fn copy_rows(rows: &Vec<PortThroughput>) -> (r: Vec<PortThroughput>)
    ensures
        lists::views(r@) == lists::views(rows@),
{
    let r = rows.clone();
    assert(lists::views(r@) =~= lists::views(rows@));
    r
}

impl App {
    /// Recompute the cached display throughputs (call after any change to
    /// `throughputs`, `show_rolling_avg`, `active_tab`, or rolling avg state).
    pub fn recompute_display(&mut self)
        requires
            old(self)@.rolling_avg.window_secs >= 1,
        ensures
            final(self)@ == recomputed(old(self)@),
    {
        let rows: Vec<PortThroughput> = if self.show_rolling_avg {
            let mut avgs = self.rolling_avg.averages();
            rows::sort_by_throughput_order(&mut avgs, self.throughputs.as_slice());
            avgs
        } else {
            copy_rows(&self.throughputs)
        };
        self.cached_display = keep_class(rows, self.active_tab);
        // Keep the cursor inside the (possibly shorter) filtered view.
        let n: usize = self.cached_display.len();
        assert(n == display_of(old(self)@).len());
        if self.selected_row >= n {
            self.selected_row = if n == 0 {
                0
            } else {
                n - 1
            };
        }
    }
}

/// The time since a moment, if there was one.
pub open spec fn since(now: u64, at: Option<u64>) -> Option<u64> {
    match at {
        Some(a) => Some(trace::span(now, a)),
        None => None,
    }
}

fn time_since(now: u64, at: Option<u64>) -> (r: Option<u64>)
    ensures
        r == since(now, at),
{
    match at {
        Some(a) => Some(now.saturating_sub(a)),
        None => None,
    }
}

/// Whether a snapshot only repeats the last one.
pub open spec fn repeats(a: AppView, taken_at: u64) -> bool {
    match since(taken_at, a.prev_taken_at) {
        Some(e) => e < DUPLICATE_NS,
        None => false,
    }
}

/// The state after the RDMA counters were read: the rows cover the time since
/// they were last read, and a first reading is compared with itself.
pub open spec fn with_stats(a: AppView, s: Option<SampleView<PortStatView>>) -> AppView {
    match s {
        Some(s) => AppView {
            rdma_rows: match since(s.taken_at, a.prev_stats_at) {
                Some(e) => rows::port_rows(a.prev_stats, s.data, e),
                None => rows::port_rows(s.data, s.data, metrics::SECOND_NS),
            },
            prev_stats: s.data,
            prev_stats_at: Some(s.taken_at),
            ..a
        },
        None => a,
    }
}

/// The state after the NVLink counters were read.
pub open spec fn with_nvlink(a: AppView, s: Option<SampleView<NvLinkSnapshotView>>) -> AppView {
    match s {
        Some(s) => AppView {
            nvlink_rows: match since(s.taken_at, a.prev_nvlink_at) {
                Some(e) => rows::nv_rows(a.prev_nvlink, s.data, e),
                None => rows::nv_rows(s.data, s.data, metrics::SECOND_NS),
            },
            prev_nvlink: s.data,
            prev_nvlink_at: Some(s.taken_at),
            ..a
        },
        None => a,
    }
}

/// The state after the XGMI counters were read.
pub open spec fn with_xgmi(a: AppView, s: Option<SampleView<XgmiSnapshotView>>) -> AppView {
    match s {
        Some(s) => AppView {
            xgmi_rows: match since(s.taken_at, a.prev_xgmi_at) {
                Some(e) => rows::xgmi_rows(a.prev_xgmi, s.data, e),
                None => rows::xgmi_rows(s.data, s.data, metrics::SECOND_NS),
            },
            prev_xgmi: s.data,
            prev_xgmi_at: Some(s.taken_at),
            ..a
        },
        None => a,
    }
}

/// The state after the network counters were read.
pub open spec fn with_ifstats(a: AppView, s: Option<SampleView<IfStatsView>>) -> AppView {
    match s {
        Some(s) => AppView {
            net: match since(s.taken_at, a.prev_ifstats_at) {
                Some(e) => Some(NetView { prev: a.prev_ifstats, curr: s.data, elapsed_ns: e }),
                None => a.net,
            },
            prev_ifstats: s.data,
            prev_ifstats_at: Some(s.taken_at),
            ..a
        },
        None => a,
    }
}

/// The state after the processes were read.
pub open spec fn with_processes(a: AppView, p: Option<Seq<ProcessRdmaInfoView>>) -> AppView {
    match p {
        Some(p) => AppView { processes: p, ..a },
        None => a,
    }
}

/// The state with everything that a snapshot read.
pub open spec fn with_readings(a: AppView, snap: SnapshotView) -> AppView {
    let rated = with_xgmi(with_nvlink(with_stats(a, snap.stats), snap.nvlink), snap.xgmi);
    with_processes(with_ifstats(rated, snap.ifstats), snap.processes)
}

/// The state with the rows of all subsystems in device order.
pub open spec fn with_rows(a: AppView, taken_at: u64) -> AppView {
    let all = lists::sorted::<PortThroughput>(a.rdma_rows + a.nvlink_rows + a.xgmi_rows);
    AppView {
        throughputs: all,
        seen_tabs: tabs_after(a.seen_tabs, all),
        prev_taken_at: Some(taken_at),
        has_data: true,
        selected_row: if a.cached_display.len() == 0 {
            a.selected_row
        } else {
            row_within(a.selected_row, a.cached_display.len())
        },
        ..a
    }
}

/// The figures of a row as they are recorded.
pub open spec fn recorded_figures(t: RowView) -> PortMetricsView {
    PortMetricsView {
        dev_name: t.dev_name,
        port: t.port,
        tx_bytes: t.tx_bytes,
        rx_bytes: t.rx_bytes,
        tx_pkts: t.tx_pkts,
        rx_pkts: t.rx_pkts,
        rx_drops: t.rx_drops,
    }
}

/// The figures of all rows as they are recorded.
pub open spec fn recorded_rows(rows: Seq<RowView>) -> Seq<PortMetricsView> {
    Seq::new(rows.len(), |i: int| recorded_figures(rows[i]))
}

/// A recording with one more sample.
pub open spec fn recorded(rec: Option<RecorderView>, taken_at: u64, rows: Seq<RowView>) -> Option<
    RecorderView,
> {
    match rec {
        Some(r) => Some(
            RecorderView {
                samples: r.samples.push(
                    trace::TraceSampleView {
                        ts_us: trace::span(taken_at, r.start) / 1000,
                        ports: recorded_rows(rows),
                    },
                ),
                ..r
            },
        ),
        None => None,
    }
}

/// The state with the rows entered into histories, averages and the recording.
pub open spec fn with_entries(a: AppView, taken_at: u64, sysinfo: SysInfoView) -> AppView {
    AppView {
        history: history_with_all(a.history, a.throughputs),
        rolling_avg: RollingView {
            samples: rolling::kept(
                rolling::with_rows(a.rolling_avg.samples, a.throughputs),
                a.throughputs,
            ),
            ..a.rolling_avg
        },
        recorder: recorded(a.recorder, taken_at, a.throughputs),
        sysinfo,
        cpu_history: capped_push(a.cpu_history, sysinfo.cpu),
        ..a
    }
}

/// The state after a snapshot.
pub open spec fn applied(a: AppView, snap: SnapshotView, sysinfo: SysInfoView) -> AppView {
    if repeats(a, snap.taken_at) {
        a
    } else {
        recomputed(
            with_entries(with_rows(with_readings(a, snap), snap.taken_at), snap.taken_at, sysinfo),
        )
    }
}

proof fn lemma_readings(a: AppView, snap: SnapshotView)
    ensures
        with_readings(a, snap).rdma_rows == with_stats(a, snap.stats).rdma_rows,
        with_readings(a, snap).prev_stats == with_stats(a, snap.stats).prev_stats,
        with_readings(a, snap).prev_stats_at == with_stats(a, snap.stats).prev_stats_at,
        with_readings(a, snap).nvlink_rows == with_nvlink(a, snap.nvlink).nvlink_rows,
        with_readings(a, snap).prev_nvlink == with_nvlink(a, snap.nvlink).prev_nvlink,
        with_readings(a, snap).prev_nvlink_at == with_nvlink(a, snap.nvlink).prev_nvlink_at,
        with_readings(a, snap).xgmi_rows == with_xgmi(a, snap.xgmi).xgmi_rows,
        with_readings(a, snap).prev_xgmi == with_xgmi(a, snap.xgmi).prev_xgmi,
        with_readings(a, snap).prev_xgmi_at == with_xgmi(a, snap.xgmi).prev_xgmi_at,
        with_readings(a, snap).net == with_ifstats(a, snap.ifstats).net,
        with_readings(a, snap).prev_ifstats == with_ifstats(a, snap.ifstats).prev_ifstats,
        with_readings(a, snap).prev_ifstats_at == with_ifstats(a, snap.ifstats).prev_ifstats_at,
        with_readings(a, snap).processes == with_processes(a, snap.processes).processes,
{
    let b = with_stats(a, snap.stats);
    assert(b.prev_nvlink == a.prev_nvlink && b.prev_xgmi == a.prev_xgmi && b.prev_ifstats
        == a.prev_ifstats);
    let c = with_nvlink(b, snap.nvlink);
    assert(c.rdma_rows == b.rdma_rows && c.prev_xgmi == a.prev_xgmi && c.prev_ifstats
        == a.prev_ifstats);
    let d = with_xgmi(c, snap.xgmi);
    assert(d.rdma_rows == b.rdma_rows && d.nvlink_rows == c.nvlink_rows && d.prev_ifstats
        == a.prev_ifstats);
}

proof fn lemma_readings_leave(a: AppView, snap: SnapshotView)
    ensures
        with_readings(a, snap).history == a.history,
        with_readings(a, snap).cpu_history == a.cpu_history,
        with_readings(a, snap).rolling_avg == a.rolling_avg,
        with_readings(a, snap).columns == a.columns,
        with_readings(a, snap).theme == a.theme,
        with_readings(a, snap).theme_count == a.theme_count,
        with_readings(a, snap).refresh_interval_ns == a.refresh_interval_ns,
        with_readings(a, snap).seen_tabs == a.seen_tabs,
        with_readings(a, snap).active_tab == a.active_tab,
{
    let b = with_stats(a, snap.stats);
    let c = with_nvlink(b, snap.nvlink);
    let d = with_xgmi(c, snap.xgmi);
    let e = with_ifstats(d, snap.ifstats);
    assert(b.history == a.history && b.cpu_history == a.cpu_history);
    assert(c.history == a.history && c.cpu_history == a.cpu_history);
    assert(d.history == a.history && d.cpu_history == a.cpu_history);
    assert(e.history == a.history && e.cpu_history == a.cpu_history);
}

/// What holds of the interface at all times still holds after a snapshot:
/// whatever was read and whatever failed, the selected row is one of those
/// shown, the histories and the samples stay bounded, no row has two buffers and
/// the tabs keep their order.
pub proof fn law_snapshot_keeps_app_ok(a: AppView, snap: SnapshotView, sysinfo: SysInfoView)
    requires
        app_ok(a),
    ensures
        app_ok(applied(a, snap, sysinfo)),
{
    if !repeats(a, snap.taken_at) {
        lemma_readings_leave(a, snap);
        let read = with_readings(a, snap);
        let rowed = with_rows(read, snap.taken_at);
        law_tabs_are_sticky(a.seen_tabs, rowed.throughputs);
        assert(tabs_in_order(rowed.seen_tabs));
        assert(rowed.seen_tabs.contains(a.active_tab));
        law_histories_stay_ok(a.history, rowed.throughputs);
        rolling::law_refresh_keeps_buffers(a.rolling_avg.samples, rowed.throughputs);
        let entered = with_entries(rowed, snap.taken_at, sysinfo);
        assert(histories_ok(entered.history));
        assert(selection_shown(recomputed(entered)));
    }
}

/// Map the display throughputs into the recorder's metric shape.
pub fn port_metrics(throughputs: &[PortThroughput]) -> (r: Vec<PortMetrics>)
    ensures
        lists::views(r@) == recorded_rows(lists::views(throughputs@)),
{
    let ghost goal = recorded_rows(lists::views(throughputs@));
    let mut out: Vec<PortMetrics> = Vec::new();
    let mut i: usize = 0;
    assert(lists::views(out@) =~= goal.take(0));
    while i < throughputs.len()
        invariant
            i <= throughputs.len(),
            goal == recorded_rows(lists::views(throughputs@)),
            lists::views(out@) == goal.take(i as int),
        decreases throughputs.len() - i,
    {
        let t = &throughputs[i];
        let m = PortMetrics {
            dev_name: t.dev_name.clone(),
            port: t.port,
            tx_bytes: t.tx_bytes.clone(),
            rx_bytes: t.rx_bytes.clone(),
            tx_pkts: t.tx_pkts.clone(),
            rx_pkts: t.rx_pkts.clone(),
            rx_drops: t.rx_drops.clone(),
        };
        proof {
            lists::lemma_views_push(out@, m);
            text::lemma_take_step(goal, i as int);
            assert(lists::views(throughputs@)[i as int] == t@);
        }
        out.push(m);
        i += 1;
    }
    assert(goal.take(goal.len() as int) =~= goal);
    out
}

fn append_rows(rows: &mut Vec<PortThroughput>, more: &[PortThroughput])
    ensures
        lists::views(final(rows)@) == lists::views(old(rows)@) + lists::views(more@),
{
    let ghost start = lists::views(rows@);
    let ghost all = lists::views(more@);
    let mut i: usize = 0;
    assert(start + all.take(0) =~= start);
    while i < more.len()
        invariant
            i <= more.len(),
            all == lists::views(more@),
            lists::views(rows@) == start + all.take(i as int),
        decreases more.len() - i,
    {
        let t = more[i].clone();
        proof {
            lists::lemma_views_push(rows@, t);
            text::lemma_take_step(all, i as int);
            assert(all[i as int] == t@);
            assert((start + all.take(i as int)).push(t@) =~= start + all.take(i + 1));
        }
        rows.push(t);
        i += 1;
    }
    assert(all.take(all.len() as int) =~= all);
}

impl App {
    fn take_stats(&mut self, sample: Option<Sample<PortStat>>)
        ensures
            final(self)@ == with_stats(old(self)@, lists::opt_view(sample)),
    {
        if let Some(s) = sample {
            self.rdma_rows = match time_since(s.taken_at, self.prev_stats_at) {
                Some(e) => rows::compute_throughputs(
                    self.prev_stats.as_slice(),
                    s.data.as_slice(),
                    e,
                ),
                None => rows::compute_throughputs(
                    s.data.as_slice(),
                    s.data.as_slice(),
                    metrics::SECOND_NS,
                ),
            };
            self.prev_stats = s.data;
            self.prev_stats_at = Some(s.taken_at);
        }
    }

    fn take_nvlink(&mut self, sample: Option<Sample<NvLinkSnapshot>>)
        ensures
            final(self)@ == with_nvlink(old(self)@, lists::opt_view(sample)),
    {
        if let Some(s) = sample {
            self.nvlink_rows = match time_since(s.taken_at, self.prev_nvlink_at) {
                Some(e) => rows::compute_nvlink_throughputs(
                    self.prev_nvlink.as_slice(),
                    s.data.as_slice(),
                    e,
                ),
                None => rows::compute_nvlink_throughputs(
                    s.data.as_slice(),
                    s.data.as_slice(),
                    metrics::SECOND_NS,
                ),
            };
            self.prev_nvlink = s.data;
            self.prev_nvlink_at = Some(s.taken_at);
        }
    }

    fn take_xgmi(&mut self, sample: Option<Sample<XgmiSnapshot>>)
        ensures
            final(self)@ == with_xgmi(old(self)@, lists::opt_view(sample)),
    {
        if let Some(s) = sample {
            self.xgmi_rows = match time_since(s.taken_at, self.prev_xgmi_at) {
                Some(e) => rows::compute_xgmi_throughputs(
                    self.prev_xgmi.as_slice(),
                    s.data.as_slice(),
                    e,
                ),
                None => rows::compute_xgmi_throughputs(
                    s.data.as_slice(),
                    s.data.as_slice(),
                    metrics::SECOND_NS,
                ),
            };
            self.prev_xgmi = s.data;
            self.prev_xgmi_at = Some(s.taken_at);
        }
    }

    fn take_ifstats(&mut self, sample: Option<Sample<IfStats>>)
        ensures
            final(self)@ == with_ifstats(old(self)@, lists::opt_view(sample)),
    {
        if let Some(s) = sample {
            let at: Option<u64> = self.prev_ifstats_at;
            let curr = s.data.clone();
            assert(lists::views(curr@) =~= lists::views(s.data@));
            let mut prev = s.data;
            core::mem::swap(&mut prev, &mut self.prev_ifstats);
            if let Some(elapsed_ns) = time_since(s.taken_at, at) {
                self.net = Some(NetWindow { prev, curr, elapsed_ns });
            }
            self.prev_ifstats_at = Some(s.taken_at);
        }
    }

    fn take_readings(&mut self, snap: Snapshot)
        ensures
            final(self)@ == with_readings(old(self)@, snap@),
    {
        let Snapshot { stats, ifstats, nvlink, xgmi, processes, taken_at: _ } = snap;
        self.take_stats(stats);
        self.take_nvlink(nvlink);
        self.take_xgmi(xgmi);
        self.take_ifstats(ifstats);
        if let Some(p) = processes {
            self.processes = p;
        }
    }

    fn clamp_selection(&mut self)
        ensures
            final(self)@ == (AppView {
                selected_row: if old(self)@.cached_display.len() == 0 {
                    old(self)@.selected_row
                } else {
                    row_within(old(self)@.selected_row, old(self)@.cached_display.len())
                },
                ..old(self)@
            }),
    {
        let n: usize = self.cached_display.len();
        assert(n == self@.cached_display.len());
        if n > 0 && self.selected_row >= n {
            self.selected_row = n - 1;
        }
    }

    fn gather_rows(&mut self, taken_at: u64)
        ensures
            final(self)@ == with_rows(old(self)@, taken_at),
    {
        let mut all = copy_rows(&self.rdma_rows);
        append_rows(&mut all, self.nvlink_rows.as_slice());
        append_rows(&mut all, self.xgmi_rows.as_slice());
        // Stable display order: sort once here so history, rolling averages,
        // recording, and the display all inherit the same order.
        rows::sort_by_device_order(&mut all);
        detect_tabs(&mut self.seen_tabs, all.as_slice());
        self.throughputs = all;
        self.prev_taken_at = Some(taken_at);
        self.has_data = true;
        self.clamp_selection();
    }

    fn update_history(&mut self)
        requires
            histories_ok(old(self)@.history),
        ensures
            final(self)@ == (AppView {
                history: history_with_all(old(self)@.history, old(self)@.throughputs),
                ..old(self)@
            }),
            histories_ok(final(self)@.history),
    {
        extend_histories(&mut self.history, self.throughputs.as_slice());
    }

    fn enter_rows(&mut self, taken_at: u64, sysinfo: SysInfo)
        requires
            histories_ok(old(self)@.history),
            rolling::buffers_ok(old(self)@.rolling_avg.samples),
        ensures
            final(self)@ == with_entries(old(self)@, taken_at, sysinfo@),
            histories_ok(final(self)@.history),
    {
        self.update_history();
        self.rolling_avg.push(self.throughputs.as_slice());
        let mut recorder: Option<Recorder> = None;
        core::mem::swap(&mut recorder, &mut self.recorder);
        if let Some(mut rec) = recorder {
            rec.push(taken_at, port_metrics(self.throughputs.as_slice()));
            self.recorder = Some(rec);
        }
        self.sysinfo = sysinfo;
        let ghost cpus = self.cpu_history@;
        if self.cpu_history.len() >= HISTORY_LEN {
            self.cpu_history.remove(0);
            assert(self.cpu_history@ =~= cpus.drop_first());
        }
        self.cpu_history.push(self.sysinfo.cpu);
    }

    /// Fold one sampler snapshot into the app state, per subsystem: a failed
    /// read (None) keeps that subsystem's previous rows and baseline, so one
    /// broken source never blocks the others. Each subsystem's first success
    /// is its baseline (prev == curr, zero rates); real rates follow. Elapsed
    /// comes from sampler-side timestamps so UI queue latency can't skew rates.
    pub fn apply_snapshot(&mut self, snap: Snapshot, sysinfo: SysInfo)
        requires
            app_ok(old(self)@),
        ensures
            final(self)@ == applied(old(self)@, snap@, sysinfo@),
            app_ok(final(self)@),
    {
        if let Some(e) = time_since(snap.taken_at, self.prev_taken_at) {
            if e < DUPLICATE_NS {
                return;
            }
        }
        let taken_at: u64 = snap.taken_at;
        proof {
            law_snapshot_keeps_app_ok(self@, snap@, sysinfo@);
        }
        self.take_readings(snap);
        self.gather_rows(taken_at);
        self.enter_rows(taken_at, sysinfo);
        self.recompute_display();
    }
}

/// The age of the last snapshot in seconds, when it is older than three
/// refresh intervals and two seconds.
pub open spec fn stale(a: AppView, now: u64) -> Option<u64> {
    match since(now, a.prev_taken_at) {
        Some(age) => if age > 3 * a.refresh_interval_ns && age > 2_000_000_000 {
            Some(age / 1_000_000_000)
        } else {
            None
        },
        None => None,
    }
}

/// The row below the selected one; that one itself when it is the last.
pub open spec fn row_below(a: AppView) -> usize {
    if a.selected_row + 1 < a.cached_display.len() {
        (a.selected_row + 1) as usize
    } else {
        a.selected_row
    }
}

/// The state after scrolling the detail pane up: by a line, or to the row
/// above when it stands at its top.
pub open spec fn detail_up(a: AppView) -> AppView {
    if a.detail_scroll > 0 {
        AppView { detail_scroll: (a.detail_scroll - 1) as u16, ..a }
    } else if a.selected_row > 0 {
        AppView { selected_row: (a.selected_row - 1) as usize, ..a }
    } else {
        a
    }
}

/// The state after scrolling the detail pane down: by a line, or to the top of
/// the row below when it stands at its end.
pub open spec fn detail_down(a: AppView, max: u16) -> AppView {
    if a.detail_scroll < max {
        AppView { detail_scroll: (a.detail_scroll + 1) as u16, ..a }
    } else if a.selected_row + 1 < a.cached_display.len() {
        AppView { selected_row: (a.selected_row + 1) as usize, detail_scroll: 0, ..a }
    } else {
        a
    }
}

/// The state with the rows shown computed anew, if they are averages.
pub open spec fn refreshed(a: AppView) -> AppView {
    if a.show_rolling_avg {
        recomputed(a)
    } else {
        a
    }
}

/// The state with another averaging window.
pub open spec fn with_window(a: AppView, secs: int) -> AppView {
    refreshed(AppView { rolling_avg: RollingView { window_secs: secs, ..a.rolling_avg }, ..a })
}

/// The name of a trace written at a time of day.
pub open spec fn trace_name(secs: u64) -> Seq<char> {
    "rdmatop-"@ + text::decimal(secs as nat) + ".json"@
}

/// The state after recording was toggled: it starts when none is running, and
/// one that captured nothing ends at once.
pub open spec fn recording_toggled(a: AppView, now: u64) -> AppView {
    match a.recorder {
        None => AppView {
            recorder: Some(RecorderView { start: now, samples: seq![] }),
            record_status: None,
            ..a
        },
        Some(rec) => if rec.samples.len() == 0 {
            AppView {
                recorder: None,
                record_status: Some("recording stopped (nothing captured)"@),
                ..a
            }
        } else {
            a
        },
    }
}

/// What is shown after a trace was saved.
pub open spec fn saved_text(path: Seq<char>, samples: nat) -> Seq<char> {
    "saved "@ + path + " ("@ + text::decimal(samples) + " samples)"@
}

/// What is shown after a trace could not be saved.
pub open spec fn failed_text(error: Seq<char>) -> Seq<char> {
    "save failed: "@ + error + " (still recording)"@
}

/// The state after a trace was written: the recording ends, or goes on with
/// all its samples when it could not be written.
pub open spec fn recording_written(a: AppView, path: Seq<char>, error: Option<Seq<char>>) -> AppView {
    match a.recorder {
        None => a,
        Some(rec) => match error {
            Some(e) => AppView { record_status: Some(failed_text(e)), ..a },
            None => AppView {
                recorder: None,
                record_status: Some(saved_text(path, rec.samples.len())),
                ..a
            },
        },
    }
}

/// The window that was typed in, if it is a number.
pub open spec fn typed_window(buf: Seq<char>) -> Option<nat> {
    text::unsigned_value(buf, usize::MAX as nat)
}

/// The state after the typed window was confirmed.
pub open spec fn window_confirmed(a: AppView) -> AppView {
    let b = match typed_window(a.window_input_buf) {
        Some(v) => with_window(a, rolling::clamped(v as int)),
        None => a,
    };
    AppView { show_window_input: false, window_input_buf: seq![], ..b }
}

/// Where something first stands in a list.
pub open spec fn place_in<T>(s: Seq<T>, x: T) -> Option<int>
    decreases s.len(),
{
    if s.len() == 0 {
        None
    } else if s[0] == x {
        Some(0int)
    } else {
        match place_in(s.drop_first(), x) {
            Some(i) => Some(i + 1),
            None => None,
        }
    }
}

proof fn lemma_place_in<T>(s: Seq<T>, x: T)
    ensures
        match place_in(s, x) {
            Some(i) => 0 <= i < s.len() && s[i] == x && forall|k: int| 0 <= k < i ==> s[k] != x,
            None => !s.contains(x),
        },
    decreases s.len(),
{
    if s.len() > 0 && s[0] != x {
        let rest = s.drop_first();
        lemma_place_in(rest, x);
        match place_in(rest, x) {
            Some(i) => {
                assert(s[i + 1] == rest[i]);
                assert forall|k: int| 0 <= k < i + 1 implies s[k] != x by {
                    if k > 0 {
                        assert(s[k] == rest[k - 1]);
                    }
                }
            },
            None => {
                assert forall|k: int| 0 <= k < s.len() implies s[k] != x by {
                    if k > 0 {
                        assert(rest[k - 1] == s[k]);
                        assert(rest.contains(rest[k - 1]));
                    }
                }
            },
        }
    }
}

/// The only place of something is where it first stands.
proof fn lemma_place_is<T>(s: Seq<T>, i: int)
    requires
        0 <= i < s.len(),
        forall|k: int| 0 <= k < i ==> s[k] != s[i],
    ensures
        place_in(s, s[i]) == Some(i),
{
    lemma_place_in(s, s[i]);
    assert(s.contains(s[i]));
    match place_in(s, s[i]) {
        Some(j) => {
            assert(s[j] == s[i]);
            assert(!(j < i));
            assert(!(i < j));
        },
        None => {},
    }
}

/// The columns after one was toggled; the last one stays.
pub open spec fn column_toggled(cols: Seq<ColumnView>, col: ColumnView) -> Seq<ColumnView> {
    match place_in(cols, col) {
        Some(i) => if cols.len() > 1 {
            cols.remove(i)
        } else {
            cols
        },
        None => cols.push(col),
    }
}

/// The horizontal scroll brought to a column.
pub open spec fn scroll_clamped(a: AppView) -> AppView {
    AppView { h_scroll: row_within(a.h_scroll, a.columns.len()), ..a }
}

/// The state after the column under the cursor was toggled.
pub open spec fn picker_toggled(a: AppView) -> AppView {
    let all = columns::all_view();
    scroll_clamped(
        if a.column_picker_cursor < all.len() {
            AppView {
                columns: column_toggled(a.columns, all[a.column_picker_cursor as int]),
                ..a
            }
        } else {
            a
        },
    )
}

/// The processes that use a device.
pub open spec fn processes_of(all: Seq<ProcessRdmaInfoView>, dev: Seq<char>) -> Seq<
    ProcessRdmaInfoView,
>
    decreases all.len(),
{
    if all.len() == 0 {
        seq![]
    } else if all.last().dev_name == dev {
        processes_of(all.drop_last(), dev).push(all.last())
    } else {
        processes_of(all.drop_last(), dev)
    }
}

/// Where a tab stands; the first place when it is not there.
pub open spec fn tab_place(tabs: Seq<DeviceClass>, class: DeviceClass) -> int {
    match place_in(tabs, class) {
        Some(i) => i,
        None => 0,
    }
}

/// The place of the next tab, or of the one before, with wrap-around.
pub open spec fn next_place(i: int, n: int, forward: bool) -> int {
    if forward {
        if i + 1 < n {
            i + 1
        } else {
            0
        }
    } else if i > 0 {
        i - 1
    } else {
        n - 1
    }
}

/// The state after moving on to another tab.
pub open spec fn cycled(a: AppView, forward: bool) -> AppView {
    let n = a.seen_tabs.len() as int;
    if n < 2 {
        a
    } else {
        let next = a.seen_tabs[next_place(tab_place(a.seen_tabs, a.active_tab), n, forward)];
        let kept = a.tab_selection.with(a.active_tab, a.selected_row);
        recomputed(
            AppView {
                tab_selection: kept,
                active_tab: next,
                selected_row: kept.row(next),
                table_offset: 0,
                h_scroll: 0,
                detail_scroll: 0,
                ..a
            },
        )
    }
}

/// The state after moving to the row above.
pub open spec fn moved_up(a: AppView) -> AppView {
    AppView {
        selected_row: if a.selected_row > 0 {
            (a.selected_row - 1) as usize
        } else {
            0
        },
        ..a
    }
}

/// The state after moving to the row below.
pub open spec fn moved_down(a: AppView) -> AppView {
    AppView { selected_row: row_below(a), ..a }
}

/// The state after opening or closing the detail pane.
pub open spec fn detail_toggled(a: AppView) -> AppView {
    AppView {
        show_detail: !a.show_detail,
        detail_scroll: 0,
        ..a
    }
}

/// The state with the next theme.
pub open spec fn theme_cycled(a: AppView) -> AppView {
    AppView {
        theme: if a.theme + 1 < a.theme_count {
            (a.theme + 1) as usize
        } else {
            0
        },
        ..a
    }
}

/// The state after averages were switched on or off.
pub open spec fn averages_toggled(a: AppView) -> AppView {
    recomputed(
        AppView { show_rolling_avg: !a.show_rolling_avg, ..a },
    )
}

/// The state with an averaging window one second longer.
pub open spec fn window_increased(a: AppView) -> AppView {
    with_window(
        a,
        rolling::clamped(a.rolling_avg.window_secs + 1),
    )
}

/// The state with an averaging window one second shorter.
pub open spec fn window_decreased(a: AppView) -> AppView {
    with_window(
        a,
        rolling::clamped(a.rolling_avg.window_secs - 1),
    )
}

/// The state with a refresh interval one step longer.
pub open spec fn refresh_slowed(a: AppView) -> AppView {
    AppView {
        refresh_interval_ns: if a.refresh_interval_ns + REFRESH_STEP_NS
            < REFRESH_MAX_NS {
            (a.refresh_interval_ns + REFRESH_STEP_NS) as u64
        } else {
            REFRESH_MAX_NS
        },
        ..a
    }
}

/// The state with a refresh interval one step shorter.
pub open spec fn refresh_sped(a: AppView) -> AppView {
    AppView {
        refresh_interval_ns: if a.refresh_interval_ns - REFRESH_STEP_NS
            > REFRESH_MIN_NS {
            (a.refresh_interval_ns - REFRESH_STEP_NS) as u64
        } else {
            REFRESH_MIN_NS
        },
        ..a
    }
}

/// The state after the window popup was opened.
pub open spec fn window_opened(a: AppView) -> AppView {
    AppView {
        window_input_buf: text::decimal(a.rolling_avg.window_secs as nat),
        show_window_input: true,
        ..a
    }
}

/// The state after the window popup was cancelled.
pub open spec fn window_cancelled(a: AppView) -> AppView {
    AppView {
        show_window_input: false,
        window_input_buf: seq![],
        ..a
    }
}

/// The state after the column picker was asked for.
pub open spec fn picker_opened(a: AppView) -> AppView {
    if a.active_tab == DeviceClass::Rdma {
        AppView { show_column_picker: true, column_picker_cursor: 0, ..a }
    } else {
        a
    }
}

/// The state after the column picker was closed.
pub open spec fn picker_closed(a: AppView) -> AppView {
    AppView { show_column_picker: false, ..a }
}

/// The state after moving up in the column picker.
pub open spec fn picker_up(a: AppView) -> AppView {
    AppView {
        column_picker_cursor: if a.column_picker_cursor > 0 {
            (a.column_picker_cursor - 1) as usize
        } else {
            0
        },
        ..a
    }
}

/// The state after moving down in the column picker.
pub open spec fn picker_down(a: AppView) -> AppView {
    AppView {
        column_picker_cursor: if a.column_picker_cursor + 1
            < columns::all_view().len() {
            (a.column_picker_cursor + 1) as usize
        } else {
            a.column_picker_cursor
        },
        ..a
    }
}

/// The state after scrolling the columns left.
pub open spec fn scrolled_left(a: AppView) -> AppView {
    AppView {
        h_scroll: if a.h_scroll > 0 {
            (a.h_scroll - 1) as usize
        } else {
            0
        },
        ..a
    }
}

/// The state after scrolling the columns right.
pub open spec fn scrolled_right(a: AppView) -> AppView {
    AppView {
        h_scroll: if a.h_scroll < a.h_scroll_max {
            (a.h_scroll + 1) as usize
        } else {
            a.h_scroll
        },
        ..a
    }
}

fn find_column(cols: &[TableColumn], col: &TableColumn) -> (r: Option<usize>)
    ensures
        match place_in(lists::views(cols@), col@) {
            Some(i) => r is Some && r->0 == i && i < cols@.len(),
            None => r is None,
        },
{
    let ghost all = lists::views(cols@);
    proof {
        lemma_place_in(all, col@);
    }
    let mut i: usize = 0;
    while i < cols.len()
        invariant
            i <= cols.len(),
            all == lists::views(cols@),
            forall|k: int| 0 <= k < i ==> all[k] != col@,
        decreases cols.len() - i,
    {
        assert(all[i as int] == cols@[i as int]@);
        if cols[i].is(col) {
            proof {
                lemma_place_is(all, i as int);
            }
            return Some(i);
        }
        i += 1;
    }
    None
}

fn find_tab(tabs: &[DeviceClass], class: DeviceClass) -> (r: usize)
    ensures
        r == tab_place(tabs@, class),
        tabs@.len() > 0 ==> r < tabs@.len(),
{
    proof {
        lemma_place_in(tabs@, class);
    }
    let mut i: usize = 0;
    while i < tabs.len()
        invariant
            i <= tabs.len(),
            forall|k: int| 0 <= k < i ==> tabs@[k] != class,
        decreases tabs.len() - i,
    {
        if tabs[i] == class {
            proof {
                lemma_place_is(tabs@, i as int);
            }
            return i;
        }
        i += 1;
    }
    0
}

/// Trace output path in the cwd, named by wall-clock seconds for uniqueness.
pub fn trace_filename(secs: u64) -> (r: String)
    ensures
        r@ == trace_name(secs),
{
    let mut out = "rdmatop-".to_owned();
    out.append(text::decimal_u64(secs).as_str());
    out.append(".json");
    out
}

impl App {
    /// Seconds since the last applied snapshot when it exceeds a staleness
    /// threshold (3x the refresh interval, min 2s); `None` while fresh.
    /// Lets the UI flag a stalled sampler, which `sampler_error` cannot see.
    pub fn stale_secs(&self, now: u64) -> (r: Option<u64>)
        ensures
            r == stale(self@, now),
    {
        match time_since(now, self.prev_taken_at) {
            Some(age) => if age as u128 > 3 * self.refresh_interval_ns as u128 && age
                > 2_000_000_000 {
                Some(age / 1_000_000_000)
            } else {
                None
            },
            None => None,
        }
    }

    pub fn move_up(&mut self)
        requires
            app_ok(old(self)@),
        ensures
            final(self)@ == moved_up(old(self)@),
            app_ok(final(self)@),
    {
        self.selected_row = self.selected_row.saturating_sub(1);
    }

    pub fn move_down(&mut self)
        requires
            app_ok(old(self)@),
        ensures
            final(self)@ == moved_down(old(self)@),
            app_ok(final(self)@),
    {
        let n: usize = self.cached_display.len();
        assert(n == self@.cached_display.len());
        if n > 0 && self.selected_row < n - 1 {
            self.selected_row += 1;
        }
    }

    pub fn toggle_detail(&mut self)
        requires
            app_ok(old(self)@),
        ensures
            final(self)@ == detail_toggled(old(self)@),
            app_ok(final(self)@),
    {
        self.show_detail = !self.show_detail;
        self.detail_scroll = 0;
    }

    pub fn detail_scroll_up(&mut self)
        requires
            app_ok(old(self)@),
        ensures
            final(self)@ == detail_up(old(self)@),
            app_ok(final(self)@),
    {
        if self.detail_scroll > 0 {
            self.detail_scroll -= 1;
        } else if self.selected_row > 0 {
            self.selected_row -= 1;
            self.detail_scroll = 0;
        }
    }

    pub fn detail_scroll_down(&mut self, max: u16)
        requires
            app_ok(old(self)@),
        ensures
            final(self)@ == detail_down(old(self)@, max),
            app_ok(final(self)@),
    {
        let n: usize = self.cached_display.len();
        assert(n == self@.cached_display.len());
        if self.detail_scroll < max {
            self.detail_scroll += 1;
        } else if n > 0 && self.selected_row < n - 1 {
            self.selected_row += 1;
            self.detail_scroll = 0;
        }
    }

    pub fn cycle_theme(&mut self)
        requires
            app_ok(old(self)@),
        ensures
            final(self)@ == theme_cycled(old(self)@),
            app_ok(final(self)@),
    {
        if self.theme < self.theme_count - 1 {
            self.theme += 1;
        } else {
            self.theme = 0;
        }
    }

    pub fn toggle_rolling_avg(&mut self)
        requires
            app_ok(old(self)@),
        ensures
            final(self)@ == averages_toggled(old(self)@),
            app_ok(final(self)@),
    {
        self.show_rolling_avg = !self.show_rolling_avg;
        self.recompute_display();
    }

    /// Toggle recording: start if idle; otherwise stop and flush the trace.
    /// Returns the file that the trace is to be written to, if there is
    /// anything to write; `finish_recording` takes what came of it.
    pub fn toggle_recording(&mut self, now: u64, wall_secs: u64) -> (r: Option<String>)
        requires
            app_ok(old(self)@),
        ensures
            final(self)@ == recording_toggled(old(self)@, now),
            match r {
                Some(path) => old(self)@.recorder is Some
                    && old(self)@.recorder->0.samples.len() > 0 && path@ == trace_name(wall_secs),
                None => old(self)@.recorder is None || old(self)@.recorder->0.samples.len() == 0,
            },
            app_ok(final(self)@),
    {
        let empty: bool = match &self.recorder {
            None => {
                self.recorder = Some(Recorder::new(now));
                self.record_status = None;
                return None;
            },
            Some(rec) => rec.is_empty(),
        };
        if empty {
            self.recorder = None;
            self.record_status = Some("recording stopped (nothing captured)".to_owned());
            return None;
        }
        Some(trace_filename(wall_secs))
    }

    /// Takes note of a trace that was written. On a write error the buffer is
    /// kept so no captured data is lost.
    pub fn finish_recording(&mut self, path: &str, error: Option<&str>)
        requires
            app_ok(old(self)@),
        ensures
            final(self)@ == recording_written(
                old(self)@,
                path@,
                match error {
                    Some(e) => Some(e@),
                    None => None,
                },
            ),
            app_ok(final(self)@),
    {
        let samples: usize = match &self.recorder {
            None => {
                return;
            },
            Some(rec) => rec.sample_count(),
        };
        match error {
            Some(e) => {
                let mut out = "save failed: ".to_owned();
                out.append(e);
                out.append(" (still recording)");
                self.record_status = Some(out);
            },
            None => {
                let mut out = "saved ".to_owned();
                out.append(path);
                out.append(" (");
                out.append(text::decimal_u64(samples as u64).as_str());
                out.append(" samples)");
                self.recorder = None;
                self.record_status = Some(out);
            },
        }
    }

    /// (elapsed seconds, sample count) for the active recording, if any.
    pub fn recording_progress(&self, now: u64) -> (r: Option<(u64, usize)>)
        ensures
            match (self@.recorder, r) {
                (Some(rec), Some((secs, samples))) => secs == trace::span(now, rec.start)
                    / 1_000_000_000 && samples == rec.samples.len(),
                (None, None) => true,
                _ => false,
            },
    {
        match &self.recorder {
            Some(rec) => Some((rec.elapsed_secs(now), rec.sample_count())),
            None => None,
        }
    }

    fn refresh_averages(&mut self)
        requires
            old(self)@.rolling_avg.window_secs >= 1,
        ensures
            final(self)@ == refreshed(old(self)@),
    {
        if self.show_rolling_avg {
            self.recompute_display();
        }
    }

    pub fn increase_avg_window(&mut self)
        requires
            app_ok(old(self)@),
        ensures
            final(self)@ == window_increased(old(self)@),
            app_ok(final(self)@),
    {
        self.rolling_avg.increase_window();
        self.refresh_averages();
    }

    pub fn decrease_avg_window(&mut self)
        requires
            app_ok(old(self)@),
        ensures
            final(self)@ == window_decreased(old(self)@),
            app_ok(final(self)@),
    {
        self.rolling_avg.decrease_window();
        self.refresh_averages();
    }

    /// Slow the refresh by one step (longer interval), clamped to the max.
    pub fn increase_refresh_interval(&mut self)
        requires
            app_ok(old(self)@),
        ensures
            final(self)@ == refresh_slowed(old(self)@),
            app_ok(final(self)@),
    {
        let ns: u64 = self.refresh_interval_ns + REFRESH_STEP_NS;
        self.refresh_interval_ns = if ns < REFRESH_MAX_NS {
            ns
        } else {
            REFRESH_MAX_NS
        };
    }

    /// Speed the refresh up by one step (shorter interval), clamped to the min.
    pub fn decrease_refresh_interval(&mut self)
        requires
            app_ok(old(self)@),
        ensures
            final(self)@ == refresh_sped(old(self)@),
            app_ok(final(self)@),
    {
        let ns: u64 = self.refresh_interval_ns.saturating_sub(REFRESH_STEP_NS);
        self.refresh_interval_ns = if ns > REFRESH_MIN_NS {
            ns
        } else {
            REFRESH_MIN_NS
        };
    }

    pub fn open_window_input(&mut self)
        requires
            app_ok(old(self)@),
        ensures
            final(self)@ == window_opened(old(self)@),
            app_ok(final(self)@),
    {
        self.window_input_buf = text::decimal_u64(self.rolling_avg.window_secs as u64);
        self.show_window_input = true;
    }

    pub fn cancel_window_input(&mut self)
        requires
            app_ok(old(self)@),
        ensures
            final(self)@ == window_cancelled(old(self)@),
            app_ok(final(self)@),
    {
        self.show_window_input = false;
        self.window_input_buf = String::new();
    }

    pub fn confirm_window_input(&mut self)
        requires
            app_ok(old(self)@),
        ensures
            final(self)@ == window_confirmed(old(self)@),
            app_ok(final(self)@),
    {
        if let Some(val) = text::parse_unsigned(self.window_input_buf.as_str(), usize::MAX as u64) {
            self.rolling_avg.set_window(val as usize);
            self.refresh_averages();
        }
        self.show_window_input = false;
        self.window_input_buf = String::new();
    }

    /// Opens the column picker. The column layout is configurable only on the
    /// RDMA tab.
    pub fn open_column_picker(&mut self)
        requires
            app_ok(old(self)@),
        ensures
            final(self)@ == picker_opened(old(self)@),
            app_ok(final(self)@),
    {
        if self.active_tab != DeviceClass::Rdma {
            return;
        }
        self.show_column_picker = true;
        self.column_picker_cursor = 0;
    }

    pub fn close_column_picker(&mut self)
        requires
            app_ok(old(self)@),
        ensures
            final(self)@ == picker_closed(old(self)@),
            app_ok(final(self)@),
    {
        self.show_column_picker = false;
    }

    pub fn column_picker_up(&mut self)
        requires
            app_ok(old(self)@),
        ensures
            final(self)@ == picker_up(old(self)@),
            app_ok(final(self)@),
    {
        self.column_picker_cursor = self.column_picker_cursor.saturating_sub(1);
    }

    pub fn column_picker_down(&mut self)
        requires
            app_ok(old(self)@),
        ensures
            final(self)@ == picker_down(old(self)@),
            app_ok(final(self)@),
    {
        let all = columns::all_columns();
        assert(lists::views(all@).len() == 26);
        if self.column_picker_cursor < all.len() - 1 {
            self.column_picker_cursor += 1;
        }
    }

    pub fn column_picker_toggle(&mut self)
        requires
            app_ok(old(self)@),
        ensures
            final(self)@ == picker_toggled(old(self)@),
            app_ok(final(self)@),
    {
        let all = columns::all_columns();
        let ghost cols = self@.columns;
        assert(lists::views(all@).len() == 26);
        if self.column_picker_cursor < all.len() {
            let col = &all[self.column_picker_cursor];
            assert(columns::all_view()[self.column_picker_cursor as int] == col@);
            match find_column(self.columns.as_slice(), col) {
                Some(pos) => {
                    if self.columns.len() > 1 {
                        self.columns.remove(pos);
                        assert(lists::views(self.columns@) =~= cols.remove(pos as int));
                    }
                },
                None => {
                    let added = col.clone();
                    proof {
                        lists::lemma_views_push(self.columns@, added);
                    }
                    self.columns.push(added);
                },
            }
        }
        self.clamp_h_scroll();
    }

    pub fn scroll_left(&mut self)
        requires
            app_ok(old(self)@),
        ensures
            final(self)@ == scrolled_left(old(self)@),
            app_ok(final(self)@),
    {
        self.h_scroll = self.h_scroll.saturating_sub(1);
    }

    pub fn scroll_right(&mut self)
        requires
            app_ok(old(self)@),
        ensures
            final(self)@ == scrolled_right(old(self)@),
            app_ok(final(self)@),
    {
        if self.h_scroll < self.h_scroll_max {
            self.h_scroll += 1;
        }
    }

    pub fn clamp_h_scroll(&mut self)
        requires
            app_ok(old(self)@),
        ensures
            final(self)@ == scroll_clamped(old(self)@),
            app_ok(final(self)@),
    {
        let n: usize = self.columns.len();
        assert(n == self@.columns.len());
        if self.h_scroll >= n {
            self.h_scroll = n - 1;
        }
    }

    /// Returns the throughputs to display: rolling avg if enabled, otherwise
    /// instant. Uses a cached value recomputed once per refresh.
    pub fn display_throughputs(&self) -> (r: &[PortThroughput])
        ensures
            lists::views(r@) == self@.cached_display,
    {
        self.cached_display.as_slice()
    }

    pub fn selected_throughput(&self) -> (r: Option<&PortThroughput>)
        ensures
            match r {
                Some(t) => self@.selected_row < self@.cached_display.len() && t@
                    == self@.cached_display[self@.selected_row as int],
                None => self@.selected_row >= self@.cached_display.len(),
            },
    {
        assert(self@.cached_display.len() == self.cached_display@.len());
        if self.selected_row < self.cached_display.len() {
            Some(&self.cached_display[self.selected_row])
        } else {
            None
        }
    }

    pub fn selected_device_processes(&self) -> (r: Vec<ProcessRdmaInfo>)
        ensures
            lists::views(r@) == if self@.selected_row < self@.cached_display.len() {
                processes_of(
                    self@.processes,
                    self@.cached_display[self@.selected_row as int].dev_name,
                )
            } else {
                seq![]
            },
    {
        let mut out: Vec<ProcessRdmaInfo> = Vec::new();
        assert(lists::views(out@) =~= seq![]);
        let dev: &str = match self.selected_throughput() {
            Some(t) => t.dev_name.as_str(),
            None => {
                return out;
            },
        };
        let ghost all = self@.processes;
        let mut i: usize = 0;
        assert(lists::views(out@) =~= processes_of(all.take(0), dev@));
        while i < self.processes.len()
            invariant
                i <= self.processes.len(),
                all == lists::views(self.processes@),
                lists::views(out@) == processes_of(all.take(i as int), dev@),
            decreases self.processes.len() - i,
        {
            let p = &self.processes[i];
            proof {
                text::lemma_take_step(all, i as int);
                assert(all[i as int] == p@);
            }
            if text::same(p.dev_name.as_str(), dev) {
                let copy = p.clone();
                proof {
                    lists::lemma_views_push(out@, copy);
                }
                out.push(copy);
            }
            i += 1;
        }
        assert(all.take(all.len() as int) =~= all);
        out
    }

    /// The history of a device, if it has one.
    pub fn history_of(&self, dev: &str) -> (r: Option<&DeviceHistory>)
        ensures
            lists::opt_view(r) == history_at(self@.history, dev@),
    {
        match find_history(self.history.as_slice(), dev) {
            Some(i) => {
                assert(self@.history[i as int] == self.history@[i as int]@);
                Some(&self.history[i].history)
            },
            None => None,
        }
    }

    /// Cycle the active tab (Tab forward, Shift-Tab back); remembers the
    /// cursor per tab and resets scroll state.
    pub fn cycle_tab(&mut self, forward: bool)
        requires
            app_ok(old(self)@),
        ensures
            final(self)@ == cycled(old(self)@, forward),
            app_ok(final(self)@),
    {
        let n: usize = self.seen_tabs.len();
        if n < 2 {
            return;
        }
        let idx: usize = find_tab(self.seen_tabs.as_slice(), self.active_tab);
        let next: usize = if forward {
            if idx < n - 1 {
                idx + 1
            } else {
                0
            }
        } else if idx > 0 {
            idx - 1
        } else {
            n - 1
        };
        self.tab_selection.insert(self.active_tab, self.selected_row);
        self.active_tab = self.seen_tabs[next];
        assert(self.seen_tabs@.contains(self.active_tab));
        self.selected_row = self.tab_selection.get(self.active_tab);
        self.table_offset = 0;
        self.h_scroll = 0;
        // Tab also works with the detail pane open; start it at the top.
        self.detail_scroll = 0;
        self.recompute_display();
    }
}

/// A snapshot that only repeats the last one changes nothing.
pub proof fn law_repeated_snapshot_changes_nothing(
    a: AppView,
    snap: SnapshotView,
    sysinfo: SysInfoView,
)
    requires
        a.prev_taken_at is Some,
        trace::span(snap.taken_at, a.prev_taken_at->0) < DUPLICATE_NS,
    ensures
        applied(a, snap, sysinfo) == a,
{
}

/// A subsystem whose read failed keeps its rows and its baseline, whatever the
/// others read.
pub proof fn law_failed_read_holds_its_subsystem(
    a: AppView,
    snap: SnapshotView,
    sysinfo: SysInfoView,
)
    ensures
        snap.stats is None ==> {
            let b = applied(a, snap, sysinfo);
            b.rdma_rows == a.rdma_rows && b.prev_stats == a.prev_stats && b.prev_stats_at
                == a.prev_stats_at
        },
        snap.nvlink is None ==> {
            let b = applied(a, snap, sysinfo);
            b.nvlink_rows == a.nvlink_rows && b.prev_nvlink == a.prev_nvlink && b.prev_nvlink_at
                == a.prev_nvlink_at
        },
        snap.xgmi is None ==> {
            let b = applied(a, snap, sysinfo);
            b.xgmi_rows == a.xgmi_rows && b.prev_xgmi == a.prev_xgmi && b.prev_xgmi_at
                == a.prev_xgmi_at
        },
        snap.ifstats is None ==> {
            let b = applied(a, snap, sysinfo);
            b.net == a.net && b.prev_ifstats == a.prev_ifstats && b.prev_ifstats_at
                == a.prev_ifstats_at
        },
        snap.processes is None ==> applied(a, snap, sysinfo).processes == a.processes,
{
    lemma_readings(a, snap);
}

/// The rows of a subsystem follow from its own samples alone: over the time
/// between them, however late or broken the other subsystems are.
pub proof fn law_rows_follow_their_own_samples(
    a: AppView,
    snap: SnapshotView,
    sysinfo: SysInfoView,
)
    requires
        !repeats(a, snap.taken_at),
    ensures
        snap.stats is Some && a.prev_stats_at is Some ==> applied(a, snap, sysinfo).rdma_rows
            == rows::port_rows(
            a.prev_stats,
            snap.stats->0.data,
            trace::span(snap.stats->0.taken_at, a.prev_stats_at->0),
        ),
        snap.nvlink is Some && a.prev_nvlink_at is Some ==> applied(a, snap, sysinfo).nvlink_rows
            == rows::nv_rows(
            a.prev_nvlink,
            snap.nvlink->0.data,
            trace::span(snap.nvlink->0.taken_at, a.prev_nvlink_at->0),
        ),
        snap.xgmi is Some && a.prev_xgmi_at is Some ==> applied(a, snap, sysinfo).xgmi_rows
            == rows::xgmi_rows(
            a.prev_xgmi,
            snap.xgmi->0.data,
            trace::span(snap.xgmi->0.taken_at, a.prev_xgmi_at->0),
        ),
{
    lemma_readings(a, snap);
}

/// Only rows of the active tab are shown.
pub proof fn law_shown_rows_belong_to_tab(a: AppView, i: int)
    requires
        0 <= i < display_of(a).len(),
    ensures
        display_of(a)[i].class == a.active_tab,
{
    let all = if a.show_rolling_avg {
        rows::ordered_like(
            rolling::averages_of(a.rolling_avg.samples, a.rolling_avg.window_secs),
            a.throughputs,
        )
    } else {
        a.throughputs
    };
    lemma_of_class(all, a.active_tab, i);
}

proof fn lemma_of_class(all: Seq<RowView>, class: DeviceClass, i: int)
    requires
        0 <= i < of_class(all, class).len(),
    ensures
        of_class(all, class)[i].class == class,
    decreases all.len(),
{
    if all.len() > 0 {
        let before = of_class(all.drop_last(), class);
        if i < before.len() {
            lemma_of_class(all.drop_last(), class, i);
        }
    }
}

proof fn lemma_tab_place(tabs: Seq<DeviceClass>, i: int)
    requires
        tabs_in_order(tabs),
        0 <= i < tabs.len(),
    ensures
        tab_place(tabs, tabs[i]) == i,
{
    assert forall|k: int| 0 <= k < i implies tabs[k] != tabs[i] by {
        assert(tabs[k].place() < tabs[i].place());
    }
    lemma_place_is(tabs, i);
}

/// Going to the next tab and back again, or the other way round, returns to
/// the same tab and the same row.
pub proof fn law_cycling_back_returns(a: AppView, forward: bool)
    requires
        app_ok(a),
        a.cached_display == display_of(a),
    ensures
        cycled(cycled(a, forward), !forward).active_tab == a.active_tab,
        cycled(cycled(a, forward), !forward).selected_row == a.selected_row,
        cycled(cycled(a, forward), !forward).cached_display == a.cached_display,
{
    let n = a.seen_tabs.len() as int;
    if n >= 2 {
        lemma_place_in(a.seen_tabs, a.active_tab);
        let i = tab_place(a.seen_tabs, a.active_tab);
        let j = next_place(i, n, forward);
        lemma_tab_place(a.seen_tabs, j);
        assert(a.seen_tabs[i] == a.active_tab);
        assert(next_place(j, n, !forward) == i);
        let b = cycled(a, forward);
        assert(b.active_tab == a.seen_tabs[j]);
        assert(b.active_tab != a.active_tab) by {
            lemma_tab_place(a.seen_tabs, i);
        }
        let c = cycled(b, !forward);
        assert(c.active_tab == a.active_tab);
        assert(b.tab_selection == a.tab_selection.with(a.active_tab, a.selected_row));
        assert(c.cached_display == display_of(a));
    }
}

/// Toggling a column that is not shown adds it at the end, and toggling it
/// once more takes it away again. However columns are toggled, some column
/// stays.
pub proof fn law_column_toggle_is_undone(cols: Seq<ColumnView>, col: ColumnView)
    requires
        cols.len() >= 1,
    ensures
        column_toggled(cols, col).len() >= 1,
        !cols.contains(col) ==> column_toggled(cols, col) == cols.push(col),
        !cols.contains(col) ==> column_toggled(column_toggled(cols, col), col) == cols,
{
    lemma_place_in(cols, col);
    if !cols.contains(col) {
        if place_in(cols, col) is Some {
            assert(cols.contains(cols[place_in(cols, col)->0]));
        }
        let more = cols.push(col);
        assert(more[cols.len() as int] == col);
        assert forall|k: int| 0 <= k < cols.len() implies #[trigger] more[k] != col by {
            assert(cols.contains(cols[k]));
        }
        lemma_place_is(more, cols.len() as int);
        assert(more.remove(cols.len() as int) =~= cols);
    }
}

/// A recording that could not be written goes on with every sample that it
/// had, and one that was written ends.
pub proof fn law_write_error_keeps_recording(a: AppView, path: Seq<char>, error: Seq<char>)
    requires
        a.recorder is Some,
    ensures
        recording_written(a, path, Some(error)).recorder == a.recorder,
        recording_written(a, path, None).recorder is None,
{
}

/// A window stays between one second and three hundred, however it is
/// changed.
pub proof fn law_window_stays_in_range(a: AppView, secs: int)
    requires
        app_ok(a),
    ensures
        1 <= with_window(a, rolling::clamped(secs)).rolling_avg.window_secs <= 300,
        1 <= window_confirmed(a).rolling_avg.window_secs <= 300,
{
}

/// Opening the window popup and confirming it without typing keeps the
/// window.
pub proof fn law_confirming_the_offered_window_keeps_it(a: AppView)
    requires
        app_ok(a),
    ensures
        window_confirmed(window_opened(a)).rolling_avg == a.rolling_avg,
{
    text::law_decimal_round_trip(a.rolling_avg.window_secs as nat, usize::MAX as nat);
}

/// A recording takes down every row of the table in order, each with its own
/// device, port and five figures.
pub proof fn law_recording_keeps_every_figure(rows: Seq<RowView>, i: int)
    requires
        0 <= i < rows.len(),
    ensures
        recorded_rows(rows).len() == rows.len(),
        recorded_rows(rows)[i].dev_name == rows[i].dev_name,
        recorded_rows(rows)[i].port == rows[i].port,
        recorded_rows(rows)[i].tx_bytes == rows[i].tx_bytes,
        recorded_rows(rows)[i].rx_bytes == rows[i].rx_bytes,
        recorded_rows(rows)[i].tx_pkts == rows[i].tx_pkts,
        recorded_rows(rows)[i].rx_pkts == rows[i].rx_pkts,
        recorded_rows(rows)[i].rx_drops == rows[i].rx_drops,
{
}

/// A recorder that is running takes down one sample for each snapshot, stamped
/// with the microseconds since it started.
pub proof fn law_recording_stamps_its_samples(rec: RecorderView, taken_at: u64, rows: Seq<RowView>)
    requires
        rec.start <= taken_at,
    ensures
        recorded(None, taken_at, rows) is None,
        match recorded(Some(rec), taken_at, rows) {
            Some(r) => {
                &&& r.start == rec.start
                &&& r.samples.len() == rec.samples.len() + 1
                &&& r.samples.drop_last() == rec.samples
                &&& r.samples.last().ts_us == (taken_at - rec.start) / 1000
                &&& r.samples.last().ports == recorded_rows(rows)
            },
            None => false,
        },
{
    assert(rec.samples.push(
        trace::TraceSampleView {
            ts_us: trace::span(taken_at, rec.start) / 1000,
            ports: recorded_rows(rows),
        },
    ).drop_last() =~= rec.samples);
}

/// A history that is full gives up its oldest value for the newest; otherwise
/// the newest is added.
pub proof fn law_history_keeps_the_newest<T>(s: Seq<T>, x: T)
    ensures
        capped_push(s, x).len() > 0,
        capped_push(s, x).last() == x,
        s.len() < 60 ==> capped_push(s, x).drop_last() == s,
        s.len() >= 60 ==> capped_push(s, x).drop_last() == s.drop_first(),
{
    assert(s.push(x).drop_last() =~= s);
    assert(s.drop_first().push(x).drop_last() =~= s.drop_first());
}

/// A row adds what it sent to the one history of its device and what it received
/// to the other; a GPU that reports its load adds that too.
pub proof fn law_history_keeps_direction(h: HistoryView, t: RowView)
    ensures
        with_row(h, t).tx == capped_push(h.tx, t.tx_bytes),
        with_row(h, t).rx == capped_push(h.rx, t.rx_bytes),
        with_row(h, t).tx.last() == t.tx_bytes,
        with_row(h, t).rx.last() == t.rx_bytes,
        t.nvlink is None && t.xgmi is None ==> with_row(h, t).util == h.util,
        t.nvlink matches Some(m) ==> (m.metrics matches Some(g) ==> with_row(h, t).util == (
        match g.util_pct {
            Some(u) => capped_push(h.util, u),
            None => h.util,
        })),
        t.nvlink is None ==> (t.xgmi matches Some(m) ==> (m.metrics matches Some(g) ==> with_row(
            h,
            t,
        ).util == (match g.util_pct {
            Some(u) => capped_push(h.util, u),
            None => h.util,
        }))),
{
}

/// A row changes the history of its own device and of no other; a device without
/// a history gets one.
pub proof fn law_history_is_of_one_device(h: Seq<HistoryEntryView>, t: RowView)
    requires
        names_unique(h),
    ensures
        forall|i: int|
            0 <= i < h.len() ==> #[trigger] history_with(h, t)[i] == (if h[i].dev_name
                == t.dev_name {
                HistoryEntryView { dev_name: t.dev_name, history: with_row(h[i].history, t) }
            } else {
                h[i]
            }),
        (forall|i: int| 0 <= i < h.len() ==> (#[trigger] h[i]).dev_name != t.dev_name)
            ==> history_with(h, t).len() == h.len() + 1 && history_with(h, t).last()
            == (HistoryEntryView {
            dev_name: t.dev_name,
            history: with_row(HistoryView { tx: seq![], rx: seq![], util: seq![] }, t),
        }),
        (exists|i: int| 0 <= i < h.len() && (#[trigger] h[i]).dev_name == t.dev_name)
            ==> history_with(h, t).len() == h.len(),
{
    lemma_history_index(h, t.dev_name);
    if let Some(k) = history_index(h, t.dev_name) {
        assert forall|i: int| 0 <= i < h.len() implies #[trigger] history_with(h, t)[i] == (
        if h[i].dev_name == t.dev_name {
            HistoryEntryView { dev_name: t.dev_name, history: with_row(h[i].history, t) }
        } else {
            h[i]
        }) by {
            if i != k && h[i].dev_name == t.dev_name {
                if i < k {
                    assert(h[i].dev_name != h[k].dev_name);
                } else {
                    assert(h[k].dev_name != h[i].dev_name);
                }
            }
        }
    }
}

/// Rows enter the histories one after the other.
pub proof fn law_rows_enter_one_by_one(h: Seq<HistoryEntryView>, rows: Seq<RowView>, t: RowView)
    ensures
        history_with_all(h, seq![]) == h,
        history_with_all(h, rows.push(t)) == history_with(history_with_all(h, rows), t),
{
    assert(rows.push(t).drop_last() =~= rows);
}

/// `all[k]` is the interface, and none before it is.
pub open spec fn is_first_interface(all: Seq<IfStatsView>, k: int, name: Seq<char>) -> bool {
    &&& 0 <= k < all.len()
    &&& all[k].name == name
    &&& forall|j: int| 0 <= j < k ==> (#[trigger] all[j]).name != name
}

proof fn lemma_interface_at(all: Seq<IfStatsView>, name: Seq<char>, k: int)
    ensures
        is_first_interface(all, k, name) ==> interface_at(all, name) == Some(all[k]),
        (forall|j: int| 0 <= j < all.len() ==> (#[trigger] all[j]).name != name) ==> interface_at(
            all,
            name,
        ) is None,
    decreases all.len(),
{
    if all.len() > 0 && all[0].name != name {
        let rest = all.drop_first();
        lemma_interface_at(rest, name, k - 1);
        if is_first_interface(all, k, name) {
            assert forall|j: int| 0 <= j < k - 1 implies (#[trigger] rest[j]).name != name by {
                assert(all[j + 1].name != name);
            }
        }
        if forall|j: int| 0 <= j < all.len() ==> (#[trigger] all[j]).name != name {
            assert forall|j: int| 0 <= j < rest.len() implies (#[trigger] rest[j]).name
                != name by {
                assert(all[j + 1].name != name);
            }
        }
    }
}

/// Network totals add up over the interfaces, received bytes first and sent
/// bytes second, each what the interface's own counter advanced; an interface
/// that was not there before adds nothing, nor does a counter that went back.
pub proof fn law_net_totals_add_up(
    prev: Seq<IfStatsView>,
    a: Seq<IfStatsView>,
    b: Seq<IfStatsView>,
    x: IfStatsView,
    k: int,
)
    ensures
        net_totals(prev, a + b).0 == net_totals(prev, a).0 + net_totals(prev, b).0,
        net_totals(prev, a + b).1 == net_totals(prev, a).1 + net_totals(prev, b).1,
        (forall|j: int| 0 <= j < prev.len() ==> (#[trigger] prev[j]).name != x.name) ==> net_totals(
            prev,
            seq![x],
        ) == (0nat, 0nat),
        is_first_interface(prev, k, x.name) ==> {
            &&& x.rx_bytes >= prev[k].rx_bytes ==> prev[k].rx_bytes + net_totals(prev, seq![x]).0
                == x.rx_bytes
            &&& x.rx_bytes < prev[k].rx_bytes ==> net_totals(prev, seq![x]).0 == 0
            &&& x.tx_bytes >= prev[k].tx_bytes ==> prev[k].tx_bytes + net_totals(prev, seq![x]).1
                == x.tx_bytes
            &&& x.tx_bytes < prev[k].tx_bytes ==> net_totals(prev, seq![x]).1 == 0
        },
    decreases b.len(),
{
    lemma_interface_at(prev, x.name, k);
    assert(seq![x].drop_last() =~= seq![]);
    assert(net_totals(prev, seq![]) == (0nat, 0nat));
    if b.len() == 0 {
        assert(a + b =~= a);
    } else {
        law_net_totals_add_up(prev, a, b.drop_last(), x, k);
        assert((a + b).drop_last() =~= a + b.drop_last());
        assert((a + b).last() == b.last());
    }
}

/// Network counters are compared with those of the sample before, over the time
/// between the two, and then take their place.
pub proof fn law_net_follows_its_samples(a: AppView, s: SampleView<IfStatsView>)
    ensures
        with_ifstats(a, Some(s)).prev_ifstats == s.data,
        with_ifstats(a, Some(s)).prev_ifstats_at == Some(s.taken_at),
        a.prev_ifstats_at is None ==> with_ifstats(a, Some(s)).net == a.net,
        a.prev_ifstats_at matches Some(at) ==> match with_ifstats(a, Some(s)).net {
            Some(n) => {
                &&& n.prev == a.prev_ifstats
                &&& n.curr == s.data
                &&& s.taken_at >= at ==> at + n.elapsed_ns == s.taken_at
                &&& s.taken_at < at ==> n.elapsed_ns == 0
            },
            None => false,
        },
{
}

/// Every sample becomes the one that the next is compared with, each kind on its
/// own, and a first sample is compared with itself over a second.
pub proof fn law_samples_become_baselines(
    a: AppView,
    stats: SampleView<PortStatView>,
    nv: SampleView<NvLinkSnapshotView>,
    amd: SampleView<XgmiSnapshotView>,
)
    ensures
        with_stats(a, Some(stats)).prev_stats == stats.data,
        with_stats(a, Some(stats)).prev_stats_at == Some(stats.taken_at),
        with_nvlink(a, Some(nv)).prev_nvlink == nv.data,
        with_nvlink(a, Some(nv)).prev_nvlink_at == Some(nv.taken_at),
        with_xgmi(a, Some(amd)).prev_xgmi == amd.data,
        with_xgmi(a, Some(amd)).prev_xgmi_at == Some(amd.taken_at),
        a.prev_stats_at is None ==> with_stats(a, Some(stats)).rdma_rows == rows::port_rows(
            stats.data,
            stats.data,
            1_000_000_000,
        ),
        a.prev_nvlink_at is None ==> with_nvlink(a, Some(nv)).nvlink_rows == rows::nv_rows(
            nv.data,
            nv.data,
            1_000_000_000,
        ),
        a.prev_xgmi_at is None ==> with_xgmi(a, Some(amd)).xgmi_rows == rows::xgmi_rows(
            amd.data,
            amd.data,
            1_000_000_000,
        ),
        a.prev_stats_at matches Some(at) ==> (stats.taken_at >= at ==> with_stats(
            a,
            Some(stats),
        ).rdma_rows == rows::port_rows(a.prev_stats, stats.data, (stats.taken_at - at) as u64)),
        a.prev_nvlink_at matches Some(at) ==> (nv.taken_at >= at ==> with_nvlink(
            a,
            Some(nv),
        ).nvlink_rows == rows::nv_rows(a.prev_nvlink, nv.data, (nv.taken_at - at) as u64)),
        a.prev_xgmi_at matches Some(at) ==> (amd.taken_at >= at ==> with_xgmi(
            a,
            Some(amd),
        ).xgmi_rows == rows::xgmi_rows(a.prev_xgmi, amd.data, (amd.taken_at - at) as u64)),
{
}

/// The table holds the rows of all three kinds, each as often as its kind has
/// it, and the time of the snapshot is kept.
pub proof fn law_table_holds_all_rows(a: AppView, taken_at: u64)
    ensures
        with_rows(a, taken_at).throughputs.to_multiset() == (a.rdma_rows + a.nvlink_rows
            + a.xgmi_rows).to_multiset(),
        with_rows(a, taken_at).prev_taken_at == Some(taken_at),
        with_rows(a, taken_at).has_data,
{
    lists::law_sorting_keeps_records::<PortThroughput>(
        a.rdma_rows + a.nvlink_rows + a.xgmi_rows,
    );
}

/// A snapshot enters the histories, the averages and the recording with the
/// rows of the table, and its load is the newest of the load history.
pub proof fn law_snapshot_enters_everywhere(a: AppView, taken_at: u64, sysinfo: SysInfoView)
    ensures
        with_entries(a, taken_at, sysinfo).history == history_with_all(a.history, a.throughputs),
        with_entries(a, taken_at, sysinfo).rolling_avg.samples == rolling::kept(
            rolling::with_rows(a.rolling_avg.samples, a.throughputs),
            a.throughputs,
        ),
        with_entries(a, taken_at, sysinfo).rolling_avg.window_secs == a.rolling_avg.window_secs,
        with_entries(a, taken_at, sysinfo).recorder == recorded(
            a.recorder,
            taken_at,
            a.throughputs,
        ),
        with_entries(a, taken_at, sysinfo).sysinfo == sysinfo,
        with_entries(a, taken_at, sysinfo).cpu_history.last() == sysinfo.cpu,
        a.cpu_history.len() < 60 ==> with_entries(a, taken_at, sysinfo).cpu_history.drop_last()
            == a.cpu_history,
{
    law_history_keeps_the_newest(a.cpu_history, sysinfo.cpu);
}

/// The rows of a class are picked out in order, and none of it is left out.
pub proof fn law_class_picks_its_rows(
    a: Seq<RowView>,
    b: Seq<RowView>,
    class: DeviceClass,
    t: RowView,
)
    ensures
        of_class(a + b, class) == of_class(a, class) + of_class(b, class),
        t.class == class ==> of_class(seq![t], class) == seq![t],
        t.class != class ==> of_class(seq![t], class).len() == 0,
    decreases b.len(),
{
    assert(seq![t].drop_last() =~= seq![]);
    assert(of_class(seq![], class) =~= seq![]);
    if t.class == class {
        assert(of_class(seq![t], class) =~= seq![t]);
    }
    if b.len() == 0 {
        assert(a + b =~= a);
        assert(of_class(b, class) =~= seq![]);
    } else {
        law_class_picks_its_rows(a, b.drop_last(), class, t);
        assert((a + b).drop_last() =~= a + b.drop_last());
        assert((a + b).last() == b.last());
    }
    assert(of_class(a + b, class) =~= of_class(a, class) + of_class(b, class));
}

/// The table shows the rows of the active tab: as they are, or averaged over the
/// window in the same order.
pub proof fn law_display_follows_the_mode(a: AppView)
    ensures
        !a.show_rolling_avg ==> recomputed(a).cached_display == of_class(
            a.throughputs,
            a.active_tab,
        ),
        a.show_rolling_avg ==> recomputed(a).cached_display == of_class(
            rows::ordered_like(
                rolling::averages_of(a.rolling_avg.samples, a.rolling_avg.window_secs),
                a.throughputs,
            ),
            a.active_tab,
        ),
        recomputed(a).selected_row <= a.selected_row,
        recomputed(a).cached_display.len() > 0 ==> recomputed(a).selected_row
            < recomputed(a).cached_display.len(),
        a.selected_row < recomputed(a).cached_display.len() ==> recomputed(a).selected_row
            == a.selected_row,
        recomputed(a).cached_display.len() > 0 && a.selected_row
            >= recomputed(a).cached_display.len() ==> recomputed(a).selected_row + 1
            == recomputed(a).cached_display.len(),
{
}

/// The processes of a device are picked out in order, and none is left out.
pub proof fn law_device_picks_its_processes(
    a: Seq<ProcessRdmaInfoView>,
    b: Seq<ProcessRdmaInfoView>,
    dev: Seq<char>,
    p: ProcessRdmaInfoView,
)
    ensures
        processes_of(a + b, dev) == processes_of(a, dev) + processes_of(b, dev),
        p.dev_name == dev ==> processes_of(seq![p], dev) == seq![p],
        p.dev_name != dev ==> processes_of(seq![p], dev).len() == 0,
    decreases b.len(),
{
    assert(seq![p].drop_last() =~= seq![]);
    assert(processes_of(seq![], dev) =~= seq![]);
    if p.dev_name == dev {
        assert(processes_of(seq![p], dev) =~= seq![p]);
    }
    if b.len() == 0 {
        assert(a + b =~= a);
        assert(processes_of(b, dev) =~= seq![]);
    } else {
        law_device_picks_its_processes(a, b.drop_last(), dev, p);
        assert((a + b).drop_last() =~= a + b.drop_last());
        assert((a + b).last() == b.last());
    }
    assert(processes_of(a + b, dev) =~= processes_of(a, dev) + processes_of(b, dev));
}

/// Data is stale once it is older than three refreshes and than two seconds; its
/// age then shows in whole seconds.
pub proof fn law_stale_data_shows_its_age(a: AppView, now: u64, at: u64)
    requires
        at <= now,
        a.prev_taken_at == Some(at),
    ensures
        now - at <= 2_000_000_000 ==> stale(a, now) is None,
        now - at <= 3 * a.refresh_interval_ns ==> stale(a, now) is None,
        now - at > 2_000_000_000 && now - at > 3 * a.refresh_interval_ns ==> stale(a, now) == Some(
            ((now - at) / 1_000_000_000) as u64,
        ),
{
}

/// Moving the selection goes one row up or down and stops at the ends.
pub proof fn law_selection_moves_by_one(a: AppView)
    requires
        a.cached_display.len() <= usize::MAX,
    ensures
        a.selected_row > 0 ==> moved_up(a).selected_row == a.selected_row - 1,
        a.selected_row == 0 ==> moved_up(a).selected_row == 0,
        a.selected_row + 1 < a.cached_display.len() ==> moved_down(a).selected_row
            == a.selected_row + 1,
        a.selected_row + 1 >= a.cached_display.len() ==> moved_down(a).selected_row
            == a.selected_row,
        moved_up(a) == (AppView { selected_row: moved_up(a).selected_row, ..a }),
        moved_down(a) == (AppView { selected_row: moved_down(a).selected_row, ..a }),
        a.selected_row + 1 < a.cached_display.len() ==> moved_up(moved_down(a)) == a,
{
}

/// In the detail pane moving scrolls first, and changes the row only where there
/// is nothing more to scroll.
pub proof fn law_detail_scrolls_before_it_moves(a: AppView, max: u16)
    requires
        a.cached_display.len() <= usize::MAX,
    ensures
        a.detail_scroll > 0 ==> detail_up(a).detail_scroll == a.detail_scroll - 1 && detail_up(
            a,
        ).selected_row == a.selected_row,
        a.detail_scroll == 0 && a.selected_row > 0 ==> detail_up(a).selected_row == a.selected_row
            - 1 && detail_up(a).detail_scroll == 0,
        a.detail_scroll == 0 && a.selected_row == 0 ==> detail_up(a) == a,
        a.detail_scroll < max ==> detail_down(a, max).detail_scroll == a.detail_scroll + 1
            && detail_down(a, max).selected_row == a.selected_row,
        a.detail_scroll >= max && a.selected_row + 1 < a.cached_display.len() ==> detail_down(
            a,
            max,
        ).selected_row == a.selected_row + 1 && detail_down(a, max).detail_scroll == 0,
        a.detail_scroll >= max && a.selected_row + 1 >= a.cached_display.len() ==> detail_down(
            a,
            max,
        ) == a,
{
}

/// The refresh interval changes by half a second and stays between 0.2 and 10
/// seconds.
pub proof fn law_refresh_changes_by_half_a_second(a: AppView)
    requires
        app_ok(a),
    ensures
        a.refresh_interval_ns + 500_000_000 <= 10_000_000_000 ==> refresh_slowed(
            a,
        ).refresh_interval_ns == a.refresh_interval_ns + 500_000_000,
        a.refresh_interval_ns + 500_000_000 > 10_000_000_000 ==> refresh_slowed(
            a,
        ).refresh_interval_ns == 10_000_000_000,
        a.refresh_interval_ns >= 700_000_000 ==> refresh_sped(a).refresh_interval_ns
            == a.refresh_interval_ns - 500_000_000,
        a.refresh_interval_ns < 700_000_000 ==> refresh_sped(a).refresh_interval_ns == 200_000_000,
        refresh_slowed(a) == (AppView {
            refresh_interval_ns: refresh_slowed(a).refresh_interval_ns,
            ..a
        }),
        refresh_sped(a) == (AppView {
            refresh_interval_ns: refresh_sped(a).refresh_interval_ns,
            ..a
        }),
{
}

/// The window changes by a second and stays between 1 and 300 seconds.
pub proof fn law_window_changes_by_a_second(a: AppView)
    requires
        app_ok(a),
    ensures
        a.rolling_avg.window_secs < 300 ==> window_increased(a).rolling_avg.window_secs
            == a.rolling_avg.window_secs + 1,
        a.rolling_avg.window_secs == 300 ==> window_increased(a).rolling_avg.window_secs == 300,
        a.rolling_avg.window_secs > 1 ==> window_decreased(a).rolling_avg.window_secs
            == a.rolling_avg.window_secs - 1,
        a.rolling_avg.window_secs == 1 ==> window_decreased(a).rolling_avg.window_secs == 1,
        window_increased(a).rolling_avg.samples == a.rolling_avg.samples,
        window_decreased(a).rolling_avg.samples == a.rolling_avg.samples,
{
}

/// A typed window is taken within its bounds, what is no number is not, and the
/// input closes either way.
pub proof fn law_typed_window_is_taken(a: AppView)
    ensures
        !window_confirmed(a).show_window_input,
        window_confirmed(a).window_input_buf.len() == 0,
        typed_window(a.window_input_buf) is None ==> window_confirmed(a).rolling_avg
            == a.rolling_avg,
        typed_window(a.window_input_buf) matches Some(v) ==> {
            &&& 1 <= v <= 300 ==> window_confirmed(a).rolling_avg.window_secs == v
            &&& v > 300 ==> window_confirmed(a).rolling_avg.window_secs == 300
            &&& v < 1 ==> window_confirmed(a).rolling_avg.window_secs == 1
        },
        !window_cancelled(a).show_window_input,
        window_cancelled(a).window_input_buf.len() == 0,
        window_cancelled(a).rolling_avg == a.rolling_avg,
        window_opened(a).show_window_input,
        window_opened(a).window_input_buf == text::decimal(a.rolling_avg.window_secs as nat),
{
}

/// Themes follow each other and start again after the last.
pub proof fn law_themes_cycle(a: AppView)
    requires
        app_ok(a),
    ensures
        a.theme + 1 < a.theme_count ==> theme_cycled(a).theme == a.theme + 1,
        a.theme + 1 == a.theme_count ==> theme_cycled(a).theme == 0,
        theme_cycled(a) == (AppView { theme: theme_cycled(a).theme, ..a }),
{
}

/// Sideways scrolling goes one column and stops at the ends.
pub proof fn law_sideways_scroll_moves_by_one(a: AppView)
    ensures
        a.h_scroll > 0 ==> scrolled_left(a).h_scroll == a.h_scroll - 1,
        a.h_scroll == 0 ==> scrolled_left(a).h_scroll == 0,
        a.h_scroll < a.h_scroll_max ==> scrolled_right(a).h_scroll == a.h_scroll + 1,
        a.h_scroll >= a.h_scroll_max ==> scrolled_right(a).h_scroll == a.h_scroll,
        scrolled_left(a) == (AppView { h_scroll: scrolled_left(a).h_scroll, ..a }),
        scrolled_right(a) == (AppView { h_scroll: scrolled_right(a).h_scroll, ..a }),
        0 < a.h_scroll <= a.h_scroll_max ==> scrolled_right(scrolled_left(a)) == a,
{
}

/// The column picker opens at its top, on the tab of RDMA ports only; its cursor
/// goes one column at a time and stops at the ends.
pub proof fn law_picker_moves_by_one(a: AppView)
    ensures
        a.active_tab == DeviceClass::Rdma ==> picker_opened(a).show_column_picker && picker_opened(
            a,
        ).column_picker_cursor == 0,
        a.active_tab != DeviceClass::Rdma ==> picker_opened(a) == a,
        !picker_closed(a).show_column_picker,
        a.column_picker_cursor > 0 ==> picker_up(a).column_picker_cursor == a.column_picker_cursor
            - 1,
        a.column_picker_cursor == 0 ==> picker_up(a).column_picker_cursor == 0,
        a.column_picker_cursor + 1 < columns::all_view().len() ==> picker_down(
            a,
        ).column_picker_cursor == a.column_picker_cursor + 1,
        a.column_picker_cursor + 1 >= columns::all_view().len() ==> picker_down(
            a,
        ).column_picker_cursor == a.column_picker_cursor,
{
}

/// The detail pane opens and closes at its top; averages are switched on and
/// off.
pub proof fn law_toggles_switch(a: AppView)
    ensures
        detail_toggled(a).show_detail != a.show_detail,
        detail_toggled(a).detail_scroll == 0,
        detail_toggled(a).selected_row == a.selected_row,
        averages_toggled(a).show_rolling_avg != a.show_rolling_avg,
        averages_toggled(a).rolling_avg == a.rolling_avg,
        averages_toggled(a).throughputs == a.throughputs,
{
}

/// Each tab keeps its own row.
pub proof fn law_tabs_keep_their_rows(
    s: TabSelection,
    class: DeviceClass,
    other: DeviceClass,
    row: usize,
)
    ensures
        s.with(class, row).row(class) == row,
        other != class ==> s.with(class, row).row(other) == s.row(other),
{
}

/// Changing the tab goes to its neighbour, keeps the row that was selected for
/// the tab that is left, and starts the new one unscrolled.
pub proof fn law_cycling_goes_to_the_neighbour(a: AppView, i: int)
    requires
        tabs_in_order(a.seen_tabs),
        0 <= i < a.seen_tabs.len(),
        a.seen_tabs[i] == a.active_tab,
        a.seen_tabs.len() >= 2,
    ensures
        i + 1 < a.seen_tabs.len() ==> cycled(a, true).active_tab == a.seen_tabs[i + 1],
        i + 1 == a.seen_tabs.len() ==> cycled(a, true).active_tab == a.seen_tabs[0],
        i > 0 ==> cycled(a, false).active_tab == a.seen_tabs[i - 1],
        i == 0 ==> cycled(a, false).active_tab == a.seen_tabs.last(),
        cycled(a, true).tab_selection.row(a.active_tab) == a.selected_row,
        cycled(a, false).tab_selection.row(a.active_tab) == a.selected_row,
        cycled(a, true).table_offset == 0,
        cycled(a, true).h_scroll == 0,
        cycled(a, true).detail_scroll == 0,
        cycled(a, true).seen_tabs == a.seen_tabs,
        cycled(a, true).throughputs == a.throughputs,
{
    lemma_place_in(a.seen_tabs, a.active_tab);
    let k = tab_place(a.seen_tabs, a.active_tab);
    assert(a.seen_tabs[k] == a.active_tab);
    if k < i {
        assert(a.seen_tabs[k].place() < a.seen_tabs[i].place());
    } else if i < k {
        assert(a.seen_tabs[i].place() < a.seen_tabs[k].place());
    }
}

/// A recording starts empty at the moment it is asked for; one that holds
/// nothing is dropped, and one that holds samples goes on until it is written.
pub proof fn law_recording_starts_and_stops(a: AppView, now: u64, path: Seq<char>, n: int)
    ensures
        a.recorder is None ==> recording_toggled(a, now).recorder == Some(
            RecorderView { start: now, samples: seq![] },
        ),
        a.recorder matches Some(r) ==> {
            &&& r.samples.len() == 0 ==> recording_toggled(a, now).recorder is None
            &&& r.samples.len() > 0 ==> recording_toggled(a, now) == a
            &&& recording_written(a, path, None).recorder is None
            &&& recording_written(a, path, None).record_status == Some(
                "saved "@ + path + " ("@ + text::decimal(r.samples.len()) + " samples)"@,
            )
        },
{
}

/// Choosing a column shows it where it was hidden, at the end, and hides it
/// where it was shown, unless it is the only one.
pub proof fn law_column_choice_shows_or_hides(cols: Seq<ColumnView>, col: ColumnView)
    ensures
        !cols.contains(col) ==> column_toggled(cols, col) == cols.push(col),
        cols.contains(col) && cols.len() > 1 ==> column_toggled(cols, col).len() == cols.len() - 1,
        cols.contains(col) && cols.len() == 1 ==> column_toggled(cols, col) == cols,
{
    lemma_place_in(cols, col);
}

/// What a value holds is what its fields hold, each under its own name.
pub proof fn law_views_hold_every_field(
    device_history: DeviceHistory,
    history_entry: HistoryEntry,
    net_window: NetWindow,
    app: App,
)
    ensures
        device_history@.tx == lists::views(device_history.tx@),
        device_history@.rx == lists::views(device_history.rx@),
        device_history@.util == device_history.util@,
        history_entry@.dev_name == history_entry.dev_name@,
        history_entry@.history == history_entry.history@,
        net_window@.prev == lists::views(net_window.prev@),
        net_window@.curr == lists::views(net_window.curr@),
        net_window@.elapsed_ns == net_window.elapsed_ns,
        app@.should_quit == app.should_quit,
        app@.throughputs == lists::views(app.throughputs@),
        app@.selected_row == app.selected_row,
        app@.show_detail == app.show_detail,
        app@.show_help == app.show_help,
        app@.processes == lists::views(app.processes@),
        app@.detail_scroll == app.detail_scroll,
        app@.detail_max_scroll == app.detail_max_scroll,
        app@.theme == app.theme,
        app@.theme_count == app.theme_count,
        app@.sysinfo == app.sysinfo@,
        app@.history == lists::views(app.history@),
        app@.cpu_history == app.cpu_history@,
        app@.prev_stats == lists::views(app.prev_stats@),
        app@.prev_ifstats == lists::views(app.prev_ifstats@),
        app@.prev_stats_at == app.prev_stats_at,
        app@.prev_ifstats_at == app.prev_ifstats_at,
        app@.prev_nvlink_at == app.prev_nvlink_at,
        app@.prev_xgmi_at == app.prev_xgmi_at,
        app@.prev_taken_at == app.prev_taken_at,
        app@.rdma_rows == lists::views(app.rdma_rows@),
        app@.nvlink_rows == lists::views(app.nvlink_rows@),
        app@.xgmi_rows == lists::views(app.xgmi_rows@),
        app@.net == lists::opt_view(app.net),
        app@.has_data == app.has_data,
        app@.sampler_error == lists::opt_text(app.sampler_error),
        app@.rolling_avg == app.rolling_avg@,
        app@.show_rolling_avg == app.show_rolling_avg,
        app@.show_window_input == app.show_window_input,
        app@.window_input_buf == app.window_input_buf@,
        app@.columns == lists::views(app.columns@),
        app@.show_column_picker == app.show_column_picker,
        app@.column_picker_cursor == app.column_picker_cursor,
        app@.h_scroll == app.h_scroll,
        app@.h_scroll_max == app.h_scroll_max,
        app@.table_offset == app.table_offset,
        app@.refresh_interval_ns == app.refresh_interval_ns,
        app@.cached_display == lists::views(app.cached_display@),
        app@.recorder == lists::opt_view(app.recorder),
        app@.record_status == lists::opt_text(app.record_status),
        app@.prev_nvlink == lists::views(app.prev_nvlink@),
        app@.prev_xgmi == lists::views(app.prev_xgmi@),
        app@.active_tab == app.active_tab,
        app@.seen_tabs == app.seen_tabs@,
        app@.tab_selection == app.tab_selection,
{
}

/// A fresh interface shows the ports, unselected and without popups, refreshes
/// every second and averages over five.
pub proof fn law_fresh_interface(sysinfo: SysInfoView, themes: usize)
    ensures
        ({
            let a = fresh_app(sysinfo, themes);
            &&& a.active_tab == DeviceClass::Rdma
            &&& a.seen_tabs == seq![DeviceClass::Rdma]
            &&& a.refresh_interval_ns == 1_000_000_000
            &&& a.rolling_avg.window_secs == 5
            &&& a.rolling_avg.samples.len() == 0
            &&& a.columns == columns::default_view()
            &&& a.selected_row == 0 && a.theme == 0 && a.theme_count == themes
            &&& !a.should_quit && !a.show_detail && !a.show_help && !a.show_rolling_avg
            &&& !a.show_window_input && !a.show_column_picker && !a.has_data
            &&& a.throughputs.len() == 0 && a.cached_display.len() == 0 && a.history.len() == 0
            &&& a.recorder is None && a.net is None && a.prev_taken_at is None
            &&& a.prev_stats_at is None && a.prev_nvlink_at is None && a.prev_xgmi_at is None
            &&& a.prev_ifstats_at is None
            &&& a.sysinfo == sysinfo
        }),
{
}

/// The picker shows or hides the column under its cursor, and the table stays
/// scrolled to a column that is there.
pub proof fn law_picker_chooses_under_the_cursor(a: AppView)
    requires
        a.column_picker_cursor < columns::all_view().len(),
    ensures
        picker_toggled(a).columns == column_toggled(
            a.columns,
            columns::all_view()[a.column_picker_cursor as int],
        ),
        picker_toggled(a).h_scroll <= a.h_scroll,
        picker_toggled(a).columns.len() > 0 ==> picker_toggled(a).h_scroll < picker_toggled(
            a,
        ).columns.len(),
        a.h_scroll < picker_toggled(a).columns.len() ==> picker_toggled(a).h_scroll == a.h_scroll,
{
}

/// Processes are replaced as a whole by those of a new sample, and stay where
/// there is none.
pub proof fn law_processes_are_replaced(a: AppView, p: Seq<ProcessRdmaInfoView>)
    ensures
        with_processes(a, Some(p)).processes == p,
        with_processes(a, None) == a,
{
}

/// A snapshot that follows another within a tenth of a second repeats it.
pub proof fn law_close_snapshots_repeat(a: AppView, at: u64, taken_at: u64)
    requires
        a.prev_taken_at == Some(at),
        at <= taken_at,
    ensures
        repeats(a, taken_at) <==> taken_at - at < 100_000_000,
{
}

/// A tab for a kind of GPU appears with its first row and stays in its place:
/// ports first, then XGMI, then NVLink.
pub proof fn law_tab_appears_with_its_rows(
    seen: Seq<DeviceClass>,
    class: DeviceClass,
    rows: Seq<RowView>,
)
    ensures
        has_class(rows, class) ==> tabs_with(seen, class, rows).contains(class),
        !has_class(rows, class) ==> tabs_with(seen, class, rows) == seen,
        seen.contains(class) ==> tabs_with(seen, class, rows) == seen,
        DeviceClass::Rdma.place() < DeviceClass::Xgmi.place() < DeviceClass::Nvlink.place(),
{
    if !seen.contains(class) && has_class(rows, class) {
        let all = seen.push(class);
        let s = lists::sorted::<DeviceClass>(all);
        lists::law_sorting_keeps_records::<DeviceClass>(all);
        broadcast use vstd::seq_lib::group_to_multiset_ensures;
        assert(all[all.len() - 1] == class);
        assert(all.contains(class));
        assert(all.to_multiset().count(class) > 0);
        assert(s.to_multiset().count(class) > 0);
        assert(s.contains(class));
    }
}

/// A recording is named by the time it was asked for, and a failure to write it
/// is told.
pub proof fn law_recording_tells_its_fate(a: AppView, path: Seq<char>, error: Seq<char>, secs: u64)
    requires
        a.recorder is Some,
    ensures
        trace_name(secs) == "rdmatop-"@ + text::decimal(secs as nat) + ".json"@,
        recording_written(a, path, Some(error)).record_status == Some(
            "save failed: "@ + error + " (still recording)"@,
        ),
{
}

/// A new snapshot sorts the newest rows of all kinds into the table, and it is
/// these rows that enter the histories and the recording and that are shown.
pub proof fn law_snapshot_shows_its_own_rows(a: AppView, snap: SnapshotView, sysinfo: SysInfoView)
    requires
        !repeats(a, snap.taken_at),
    ensures
        ({
            let b = applied(a, snap, sysinfo);
            &&& b.throughputs == lists::sorted::<PortThroughput>(
                b.rdma_rows + b.nvlink_rows + b.xgmi_rows,
            )
            &&& b.history == history_with_all(a.history, b.throughputs)
            &&& b.recorder == recorded(a.recorder, snap.taken_at, b.throughputs)
            &&& b.prev_taken_at == Some(snap.taken_at)
            &&& b.sysinfo == sysinfo
            &&& b.cached_display == display_of(b)
            &&& !b.show_rolling_avg ==> b.cached_display == of_class(b.throughputs, b.active_tab)
            &&& b.show_rolling_avg == a.show_rolling_avg
            &&& b.active_tab == a.active_tab
        }),
{
}

/// A change of the window shows at once where averages are shown, and not at all
/// where they are not.
pub proof fn law_window_change_shows_at_once(a: AppView, secs: int)
    ensures
        with_window(a, secs).rolling_avg.window_secs == secs,
        with_window(a, secs).rolling_avg.samples == a.rolling_avg.samples,
        a.show_rolling_avg ==> with_window(a, secs).cached_display == of_class(
            rows::ordered_like(rolling::averages_of(a.rolling_avg.samples, secs), a.throughputs),
            a.active_tab,
        ),
        !a.show_rolling_avg ==> with_window(a, secs).cached_display == a.cached_display
            && with_window(a, secs).selected_row == a.selected_row,
{
}

/// A tab that is come back to shows the row that was selected in it, as long as
/// it has so many rows.
pub proof fn law_tab_returns_to_its_row(a: AppView, forward: bool)
    requires
        a.seen_tabs.len() >= 2,
    ensures
        ({
            let b = cycled(a, forward);
            let row = a.tab_selection.with(a.active_tab, a.selected_row).row(b.active_tab);
            &&& b.tab_selection == a.tab_selection.with(a.active_tab, a.selected_row)
            &&& row < b.cached_display.len() ==> b.selected_row == row
            &&& b.cached_display == display_of(b)
        }),
{
}

} // verus!
