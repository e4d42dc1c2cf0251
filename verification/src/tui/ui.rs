//! What the interface shows: the header, the table, the detail pane, the
//! status bar and the popups, as lines of styled text.

use vstd::prelude::*;

use crate::lists;
use crate::metrics;
use crate::metrics::{CounterRate, CounterRateView, Mean, MeanView, Rate};
use crate::nvlink::RemoteDeviceType;
use crate::stat::{ProcessRdmaInfo, ProcessRdmaInfoView};
use crate::text;
use crate::trace;
use crate::tui::app;
use crate::tui::app::{App, AppView, DeviceHistory, HistoryView};
use crate::tui::columns;
use crate::tui::columns::{ColumnView, TableColumn};
use crate::tui::rolling;
use crate::tui::rows;
use crate::tui::rows::{
    NvLinkMetaView, NvLinkRate, NvLinkRateView, NvLinkThroughputMeta, PortThroughput, RowView,
    XgmiLinkRate, XgmiLinkRateView, XgmiMetaView, XgmiThroughputMeta,
};
use crate::tui::spans;
use crate::tui::spans::{Line, Number, NumberView, Span, SpanView, Tone, ToneView};
use crate::tui::sysinfo::{SysInfo, SysInfoView};

verus! {

/// The first line of the header: host, time since boot and load.
pub open spec fn host_line(s: SysInfoView) -> Seq<SpanView> {
    seq![
        spans::words(" rdmatop "@, ToneView::Accent, true),
        spans::words(
            "- "@ + s.hostname + " │ "@ + s.uptime + " │ load average: "@ + s.load_avg,
            ToneView::Muted,
            false,
        ),
    ]
}

/// Builds the first line of the header.
pub fn header_line1(s: &SysInfo) -> (r: Line)
    ensures
        r@ == host_line(s@),
{
    let mut info = "- ".to_owned();
    info.append(s.hostname.as_str());
    info.append(" │ ");
    info.append(s.uptime.as_str());
    info.append(" │ load average: ");
    info.append(s.load_avg.as_str());
    let parts = vec![
        spans::styled(" rdmatop ", Tone::Accent, true),
        spans::styled(info.as_str(), Tone::Muted, false),
    ];
    assert(lists::views(parts@) =~= host_line(s@));
    Line { spans: parts }
}

/// What is transmitted, by row.
pub open spec fn tx_figures(rows: Seq<RowView>) -> Seq<MeanView> {
    Seq::new(rows.len(), |i: int| rows[i].tx_bytes)
}

/// What is received, by row.
pub open spec fn rx_figures(rows: Seq<RowView>) -> Seq<MeanView> {
    Seq::new(rows.len(), |i: int| rows[i].rx_bytes)
}

/// What is dropped, by row.
pub open spec fn drop_figures(rows: Seq<RowView>) -> Seq<MeanView> {
    Seq::new(rows.len(), |i: int| rows[i].rx_drops)
}

fn gather(rows: &[PortThroughput]) -> (r: (Vec<Mean>, Vec<Mean>, Vec<Mean>))
    ensures
        lists::views(r.0@) == tx_figures(lists::views(rows@)),
        lists::views(r.1@) == rx_figures(lists::views(rows@)),
        lists::views(r.2@) == drop_figures(lists::views(rows@)),
{
    let ghost all = lists::views(rows@);
    let mut tx: Vec<Mean> = Vec::new();
    let mut rx: Vec<Mean> = Vec::new();
    let mut drops: Vec<Mean> = Vec::new();
    let mut i: usize = 0;
    assert(lists::views(tx@) =~= tx_figures(all).take(0));
    assert(lists::views(rx@) =~= rx_figures(all).take(0));
    assert(lists::views(drops@) =~= drop_figures(all).take(0));
    while i < rows.len()
        invariant
            i <= rows.len(),
            all == lists::views(rows@),
            lists::views(tx@) == tx_figures(all).take(i as int),
            lists::views(rx@) == rx_figures(all).take(i as int),
            lists::views(drops@) == drop_figures(all).take(i as int),
        decreases rows.len() - i,
    {
        let t = rows[i].tx_bytes.clone();
        let r = rows[i].rx_bytes.clone();
        let d = rows[i].rx_drops.clone();
        proof {
            assert(all[i as int] == rows@[i as int]@);
            lists::lemma_views_push(tx@, t);
            lists::lemma_views_push(rx@, r);
            lists::lemma_views_push(drops@, d);
            text::lemma_take_step(tx_figures(all), i as int);
            text::lemma_take_step(rx_figures(all), i as int);
            text::lemma_take_step(drop_figures(all), i as int);
        }
        tx.push(t);
        rx.push(r);
        drops.push(d);
        i += 1;
    }
    assert(tx_figures(all).take(all.len() as int) =~= tx_figures(all));
    assert(rx_figures(all).take(all.len() as int) =~= rx_figures(all));
    assert(drop_figures(all).take(all.len() as int) =~= drop_figures(all));
    (tx, rx, drops)
}

/// The averaging window and how much of it is filled; empty when rates are
/// not averaged.
pub open spec fn average_note(a: AppView) -> Seq<char> {
    if a.show_rolling_avg {
        " │ avg:"@ + text::decimal(a.rolling_avg.window_secs as nat) + "s("@ + text::decimal(
            rolling::most_samples(a.rolling_avg.samples, a.rolling_avg.window_secs) as nat,
        ) + "/"@ + text::decimal(a.rolling_avg.window_secs as nat) + ")"@
    } else {
        ""@
    }
}

/// The second line of the header: the devices shown, their totals, the
/// refresh interval, the theme and the averaging window.
pub open spec fn totals_line(a: AppView, theme: Seq<char>) -> Seq<SpanView> {
    let shown = a.cached_display;
    seq![
        spans::words(
            " "@ + a.active_tab.text() + ": "@ + text::decimal(shown.len()) + " device"@ + if shown.len()
                == 1 {
                ""@
            } else {
                "s"@
            },
            ToneView::Fg,
            false,
        ),
        spans::words(" │ TX: "@, ToneView::Muted, false),
        spans::figure(""@, NumberView::TotalGbps(tx_figures(shown)), 0, " Gbps"@, ToneView::Good),
        spans::words(" │ RX: "@, ToneView::Muted, false),
        spans::figure(""@, NumberView::TotalGbps(rx_figures(shown)), 0, " Gbps"@, ToneView::Good),
        spans::words(" │ Drops: "@, ToneView::Muted, false),
        spans::figure(
            ""@,
            NumberView::TotalPerSec(drop_figures(shown)),
            0,
            "/s"@,
            if metrics::sum_above_zero(drop_figures(shown)) {
                ToneView::Error
            } else {
                ToneView::Muted
            },
        ),
        spans::words(
            " │ refresh: "@ + spans::tenths_text((a.refresh_interval_ns / 100_000_000) as nat)
                + "s │ theme: "@ + theme,
            ToneView::Muted,
            false,
        ),
        spans::words(average_note(a), ToneView::Accent, false),
    ]
}

/// Builds the second line of the header.
pub fn header_line2(app: &App, theme: &str) -> (r: Line)
    requires
        app::app_ok(app@),
    ensures
        r@ == totals_line(app@, theme@),
{
    let display = app.display_throughputs();
    let n: usize = display.len();
    let (tx, rx, drops) = gather(display);
    assert(n == app@.cached_display.len());
    let drop_tone = if metrics::is_sum_above_zero(drops.as_slice()) {
        Tone::Error
    } else {
        Tone::Muted
    };
    let mut devices = " ".to_owned();
    devices.append(app.active_tab.label());
    devices.append(": ");
    devices.append(text::decimal_u64(n as u64).as_str());
    devices.append(" device");
    devices.append(
        if n == 1 {
            ""
        } else {
            "s"
        },
    );
    let average = if app.show_rolling_avg {
        let window = text::decimal_u64(app.rolling_avg.window_secs as u64);
        let mut out = " │ avg:".to_owned();
        out.append(window.as_str());
        out.append("s(");
        out.append(text::decimal_u64(app.rolling_avg.sample_count() as u64).as_str());
        out.append("/");
        out.append(window.as_str());
        out.append(")");
        out
    } else {
        "".to_owned()
    };
    let mut status = " │ refresh: ".to_owned();
    status.append(spans::write_tenths((app.refresh_interval_ns / 100_000_000) as u128).as_str());
    status.append("s │ theme: ");
    status.append(theme);
    let parts = vec![
        spans::styled(devices.as_str(), Tone::Fg, false),
        spans::styled(" │ TX: ", Tone::Muted, false),
        spans::numbered("", Number::TotalGbps(tx), 0, " Gbps", Tone::Good),
        spans::styled(" │ RX: ", Tone::Muted, false),
        spans::numbered("", Number::TotalGbps(rx), 0, " Gbps", Tone::Good),
        spans::styled(" │ Drops: ", Tone::Muted, false),
        spans::numbered("", Number::TotalPerSec(drops), 0, "/s", drop_tone),
        spans::styled(status.as_str(), Tone::Muted, false),
        spans::styled(average.as_str(), Tone::Accent, false),
    ];
    assert(lists::views(parts@) =~= totals_line(app@, theme@));
    Line { spans: parts }
}

/// The width of a gauge in cells.
pub const GAUGE_WIDTH: usize = 20;

/// The bytes received and sent since the network was last read; none before
/// there is a span.
pub open spec fn net_bytes(a: AppView) -> (nat, nat, u64) {
    match a.net {
        Some(n) => {
            let t = app::net_totals(n.prev, n.curr);
            (t.0, t.1, n.elapsed_ns)
        },
        None => (0, 0, metrics::SECOND_NS),
    }
}

/// The third line of the header: processor, memory and network.
pub open spec fn load_line(a: AppView) -> Seq<SpanView> {
    let s = a.sysinfo;
    let cpu = ToneView::ByShare { part: s.cpu.busy as nat, whole: s.cpu.total as nat };
    let mem = ToneView::ByShare { part: s.mem_used_mb as nat, whole: s.mem_total_mb as nat };
    let net = net_bytes(a);
    seq![
        spans::words(" CPU "@, ToneView::Muted, false),
        spans::words("["@, ToneView::Muted, false),
        spans::figure(
            ""@,
            NumberView::GaugeFill {
                part: s.cpu.busy as nat,
                whole: s.cpu.total as nat,
                width: GAUGE_WIDTH as int,
            },
            0,
            ""@,
            cpu,
        ),
        spans::figure(
            ""@,
            NumberView::GaugeRest {
                part: s.cpu.busy as nat,
                whole: s.cpu.total as nat,
                width: GAUGE_WIDTH as int,
            },
            0,
            ""@,
            ToneView::Muted,
        ),
        spans::figure(
            ""@,
            NumberView::Percent { part: s.cpu.busy as nat, whole: s.cpu.total as nat },
            5,
            "%]"@,
            cpu,
        ),
        spans::words("  Mem "@, ToneView::Muted, false),
        spans::words("["@, ToneView::Muted, false),
        spans::figure(
            ""@,
            NumberView::GaugeFill {
                part: s.mem_used_mb as nat,
                whole: s.mem_total_mb as nat,
                width: GAUGE_WIDTH as int,
            },
            0,
            ""@,
            mem,
        ),
        spans::figure(
            ""@,
            NumberView::GaugeRest {
                part: s.mem_used_mb as nat,
                whole: s.mem_total_mb as nat,
                width: GAUGE_WIDTH as int,
            },
            0,
            ""@,
            ToneView::Muted,
        ),
        spans::words(spans::mem_label_text(s.mem_used_mb, s.mem_total_mb), mem, false),
        spans::words("  Net "@, ToneView::Muted, false),
        spans::figure(
            "↓"@,
            NumberView::ShortBytes { bytes: net.0, elapsed_ns: net.2 },
            0,
            "/s "@,
            ToneView::Fg,
        ),
        spans::figure(
            "↑"@,
            NumberView::ShortBytes { bytes: net.1, elapsed_ns: net.2 },
            0,
            "/s"@,
            ToneView::Fg,
        ),
    ]
}

/// Builds the third line of the header.
pub fn header_line3(app: &App) -> (r: Line)
    ensures
        r@ == load_line(app@),
{
    let s = &app.sysinfo;
    let busy: u128 = s.cpu.busy;
    let ticks: u128 = s.cpu.total;
    let used: u128 = s.mem_used_mb as u128;
    let total: u128 = s.mem_total_mb as u128;
    let (rx, tx, elapsed_ns): (u128, u128, u64) = match &app.net {
        Some(n) => {
            let (rx, tx): (u128, u128) = n.totals();
            (rx, tx, n.elapsed_ns)
        },
        None => (0, 0, metrics::SECOND_NS),
    };
    let label = spans::mem_label(s.mem_used_mb, s.mem_total_mb);
    let parts = vec![
        spans::styled(" CPU ", Tone::Muted, false),
        spans::styled("[", Tone::Muted, false),
        spans::numbered(
            "",
            Number::GaugeFill { part: busy, whole: ticks, width: GAUGE_WIDTH },
            0,
            "",
            Tone::ByShare { part: busy, whole: ticks },
        ),
        spans::numbered(
            "",
            Number::GaugeRest { part: busy, whole: ticks, width: GAUGE_WIDTH },
            0,
            "",
            Tone::Muted,
        ),
        spans::numbered(
            "",
            Number::Percent { part: busy, whole: ticks },
            5,
            "%]",
            Tone::ByShare { part: busy, whole: ticks },
        ),
        spans::styled("  Mem ", Tone::Muted, false),
        spans::styled("[", Tone::Muted, false),
        spans::numbered(
            "",
            Number::GaugeFill { part: used, whole: total, width: GAUGE_WIDTH },
            0,
            "",
            Tone::ByShare { part: used, whole: total },
        ),
        spans::numbered(
            "",
            Number::GaugeRest { part: used, whole: total, width: GAUGE_WIDTH },
            0,
            "",
            Tone::Muted,
        ),
        spans::styled(label.as_str(), Tone::ByShare { part: used, whole: total }, false),
        spans::styled("  Net ", Tone::Muted, false),
        spans::numbered("↓", Number::ShortBytes { bytes: rx, elapsed_ns }, 0, "/s ", Tone::Fg),
        spans::numbered("↑", Number::ShortBytes { bytes: tx, elapsed_ns }, 0, "/s", Tone::Fg),
    ];
    assert(lists::views(parts@) =~= load_line(app@));
    Line { spans: parts }
}

/// A field of the table with a throughput.
pub open spec fn gbps_field(rate: MeanView) -> SpanView {
    spans::figure(""@, NumberView::Gbps(rate), 0, ""@, ToneView::ByThroughput(rate))
}

/// A field of the table with a bar.
pub open spec fn bar_field(rate: MeanView, link_mbps: Option<u64>) -> SpanView {
    spans::figure(
        ""@,
        NumberView::Bar { rate, link_mbps },
        0,
        ""@,
        ToneView::ByThroughput(rate),
    )
}

/// A counter rate as it is written, by whether bytes are counted.
pub open spec fn counter_number(rate: MeanView, is_bytes: bool) -> NumberView {
    if is_bytes {
        NumberView::Bytes(rate)
    } else {
        NumberView::Events(rate)
    }
}

/// Whether the first counter with a name counts bytes; none does without one.
pub open spec fn bytes_named(rates: Seq<CounterRateView>, name: Seq<char>) -> bool {
    match rolling::counter_named(rates, name) {
        Some(c) => c.is_bytes,
        None => false,
    }
}

/// The field of a column in the row of a device.
pub open spec fn cell_of(col: ColumnView, t: RowView) -> SpanView {
    match col {
        ColumnView::Device => spans::words(t.dev_name, ToneView::Fg, false),
        ColumnView::Port => spans::words(
            match t.port_label {
                Some(label) => label,
                None => text::decimal(t.port as nat),
            },
            ToneView::Muted,
            false,
        ),
        ColumnView::TxBar => bar_field(t.tx_bytes, t.link_mbps),
        ColumnView::TxGbps => gbps_field(t.tx_bytes),
        ColumnView::RxBar => bar_field(t.rx_bytes, t.link_mbps),
        ColumnView::RxGbps => gbps_field(t.rx_bytes),
        ColumnView::TxPps => spans::figure(
            ""@,
            NumberView::Packets(t.tx_pkts),
            0,
            ""@,
            ToneView::Fg,
        ),
        ColumnView::RxPps => spans::figure(
            ""@,
            NumberView::Packets(t.rx_pkts),
            0,
            ""@,
            ToneView::Fg,
        ),
        ColumnView::Drops => spans::figure(
            ""@,
            NumberView::PerSec(t.rx_drops),
            0,
            ""@,
            if metrics::above_zero(t.rx_drops) {
                ToneView::Error
            } else {
                ToneView::Muted
            },
        ),
        ColumnView::Counter(name) => {
            let rate = rows::rate_named(t.counter_rates, name);
            spans::figure(
                ""@,
                counter_number(rate, bytes_named(t.counter_rates, name)),
                0,
                ""@,
                if metrics::above_zero(rate) {
                    ToneView::Fg
                } else {
                    ToneView::Muted
                },
            )
        },
    }
}

fn counts_bytes_named(rates: &[CounterRate], name: &str) -> (r: bool)
    ensures
        r == bytes_named(lists::views(rates@), name@),
{
    let ghost all = lists::views(rates@);
    let mut i: usize = 0;
    assert(all.skip(0) =~= all);
    while i < rates.len()
        invariant
            i <= rates.len(),
            all == lists::views(rates@),
            rolling::counter_named(all, name@) == rolling::counter_named(
                all.skip(i as int),
                name@,
            ),
        decreases rates.len() - i,
    {
        assert(all.skip(i as int)[0] == rates@[i as int]@);
        if text::same(rates[i].name.as_str(), name) {
            return rates[i].is_bytes;
        }
        assert(all.skip(i as int).drop_first() =~= all.skip(i + 1));
        i += 1;
    }
    false
}

fn rate_number(rate: Mean, is_bytes: bool) -> (r: Number)
    ensures
        r@ == counter_number(rate@, is_bytes),
{
    if is_bytes {
        Number::Bytes(rate)
    } else {
        Number::Events(rate)
    }
}

/// Builds the field of a column in the row of a device.
pub fn column_cell(col: &TableColumn, t: &PortThroughput) -> (r: Span)
    ensures
        r@ == cell_of(col@, t@),
{
    match col {
        TableColumn::Device => spans::styled(t.dev_name.as_str(), Tone::Fg, false),
        TableColumn::Port => {
            let port = match &t.port_label {
                Some(label) => label.clone(),
                None => text::decimal_u64(t.port as u64),
            };
            spans::styled(port.as_str(), Tone::Muted, false)
        },
        TableColumn::TxBar => spans::numbered(
            "",
            Number::Bar { rate: t.tx_bytes.clone(), link_mbps: t.link_mbps },
            0,
            "",
            Tone::ByThroughput(t.tx_bytes.clone()),
        ),
        TableColumn::TxGbps => spans::numbered(
            "",
            Number::Gbps(t.tx_bytes.clone()),
            0,
            "",
            Tone::ByThroughput(t.tx_bytes.clone()),
        ),
        TableColumn::RxBar => spans::numbered(
            "",
            Number::Bar { rate: t.rx_bytes.clone(), link_mbps: t.link_mbps },
            0,
            "",
            Tone::ByThroughput(t.rx_bytes.clone()),
        ),
        TableColumn::RxGbps => spans::numbered(
            "",
            Number::Gbps(t.rx_bytes.clone()),
            0,
            "",
            Tone::ByThroughput(t.rx_bytes.clone()),
        ),
        TableColumn::TxPps => spans::numbered(
            "",
            Number::Packets(t.tx_pkts.clone()),
            0,
            "",
            Tone::Fg,
        ),
        TableColumn::RxPps => spans::numbered(
            "",
            Number::Packets(t.rx_pkts.clone()),
            0,
            "",
            Tone::Fg,
        ),
        TableColumn::Drops => spans::numbered(
            "",
            Number::PerSec(t.rx_drops.clone()),
            0,
            "",
            if t.rx_drops.is_above_zero() {
                Tone::Error
            } else {
                Tone::Muted
            },
        ),
        TableColumn::Counter(name) => {
            let rate = rows::rate_by_name(t.counter_rates.as_slice(), name.as_str());
            let is_bytes: bool = counts_bytes_named(t.counter_rates.as_slice(), name.as_str());
            let tone = if rate.is_above_zero() {
                Tone::Fg
            } else {
                Tone::Muted
            };
            spans::numbered("", rate_number(rate, is_bytes), 0, "", tone)
        },
    }
}

/// The title of the table.
pub open spec fn table_title(a: AppView) -> Seq<char> {
    if a.show_rolling_avg {
        " "@ + a.active_tab.text() + " Throughput (avg "@ + text::decimal(
            a.rolling_avg.window_secs as nat,
        ) + "s) "@
    } else {
        " "@ + a.active_tab.text() + " Throughput "@
    }
}

fn title_of_table(app: &App) -> (r: String)
    ensures
        r@ == table_title(app@),
{
    let mut out = " ".to_owned();
    out.append(app.active_tab.label());
    if app.show_rolling_avg {
        out.append(" Throughput (avg ");
        out.append(text::decimal_u64(app.rolling_avg.window_secs as u64).as_str());
        out.append("s) ");
    } else {
        out.append(" Throughput ");
    }
    out
}

/// What a number less another one is, or zero.
pub open spec fn less_by(n: u16, by: int) -> int {
    if n >= by {
        n - by
    } else {
        0
    }
}

/// The columns from the first that fit side by side behind some that take up
/// `used` cells, each but the very first with a cell between.
pub open spec fn fitting_columns(cols: Seq<ColumnView>, used: int, avail: int) -> Seq<ColumnView>
    decreases cols.len(),
{
    if cols.len() == 0 {
        seq![]
    } else {
        let w = columns::width_of(cols[0]) + if used > 0 {
            1int
        } else {
            0
        };
        if used + w <= avail {
            seq![cols[0]] + fitting_columns(cols.drop_first(), used + w, avail)
        } else {
            seq![]
        }
    }
}

/// The cells that some columns take up, each with one more.
pub open spec fn total_width(cols: Seq<ColumnView>) -> int
    decreases cols.len(),
{
    if cols.len() == 0 {
        0
    } else {
        columns::width_of(cols[0]) + 1 + total_width(cols.drop_first())
    }
}

/// How far the columns can be scrolled: past every column at the start from
/// which they do not all fit.
pub open spec fn scroll_limit(cols: Seq<ColumnView>, avail: int) -> int
    decreases cols.len(),
{
    if cols.len() == 0 || total_width(cols) <= avail {
        0
    } else {
        1 + scroll_limit(cols.drop_first(), avail)
    }
}

/// The columns from one on.
pub open spec fn columns_from(cols: Seq<ColumnView>, start: int) -> Seq<ColumnView> {
    if start <= cols.len() {
        cols.skip(start)
    } else {
        seq![]
    }
}

fn visible_columns(cols: &[TableColumn], start: usize, avail: u16) -> (r: Vec<TableColumn>)
    ensures
        lists::views(r@) == fitting_columns(
            columns_from(lists::views(cols@), start as int),
            0,
            avail as int,
        ),
{
    let ghost all = lists::views(cols@);
    let ghost goal = fitting_columns(columns_from(all, start as int), 0, avail as int);
    let mut out: Vec<TableColumn> = Vec::new();
    let mut used: u32 = 0;
    let mut i: usize = start;
    assert(lists::views(out@) =~= seq![]);
    assert(lists::views(out@) + goal =~= goal);
    while i < cols.len()
        invariant
            used <= avail,
            all == lists::views(cols@),
            goal == fitting_columns(columns_from(all, start as int), 0, avail as int),
            lists::views(out@) + fitting_columns(
                columns_from(all, i as int),
                used as int,
                avail as int,
            ) == goal,
        decreases cols.len() - i,
    {
        let sep: u32 = if used > 0 {
            1
        } else {
            0
        };
        let w: u32 = cols[i].width() as u32 + sep;
        let ghost rest = columns_from(all, i as int);
        proof {
            assert(rest[0] == cols@[i as int]@);
            assert(rest.drop_first() =~= columns_from(all, i + 1));
        }
        if used + w > avail as u32 {
            assert(lists::views(out@) + Seq::<ColumnView>::empty() =~= lists::views(out@));
            return out;
        }
        let ghost before = lists::views(out@);
        let col = cols[i].clone();
        proof {
            lists::lemma_views_push(out@, col);
        }
        out.push(col);
        used = used + w;
        assert(lists::views(out@) + fitting_columns(
            columns_from(all, i + 1),
            used as int,
            avail as int,
        ) =~= before + (seq![rest[0]] + fitting_columns(
            columns_from(all, i + 1),
            used as int,
            avail as int,
        )));
        i += 1;
    }
    assert(columns_from(all, i as int) =~= seq![]);
    assert(lists::views(out@) + Seq::<ColumnView>::empty() =~= lists::views(out@));
    out
}

fn width_from(cols: &[TableColumn], start: usize) -> (r: u128)
    requires
        start <= cols@.len(),
    ensures
        r == total_width(lists::views(cols@).skip(start as int)),
{
    let ghost all = lists::views(cols@);
    let mut sum: u128 = 0;
    let mut i: usize = cols.len();
    assert(all.skip(i as int) =~= seq![]);
    while i > start
        invariant
            start <= i <= cols.len(),
            all == lists::views(cols@),
            sum == total_width(all.skip(i as int)),
            sum <= (cols.len() - i) * 0x1_0000,
        decreases i,
    {
        proof {
            assert(all.skip(i - 1)[0] == cols@[i - 1]@);
            assert(all.skip(i - 1).drop_first() =~= all.skip(i as int));
        }
        sum = sum + cols[i - 1].width() as u128 + 1;
        i -= 1;
    }
    sum
}

fn max_scroll(cols: &[TableColumn], avail: u16) -> (r: usize)
    ensures
        r == scroll_limit(lists::views(cols@), avail as int),
        r <= cols@.len(),
{
    let ghost all = lists::views(cols@);
    let mut start: usize = 0;
    assert(all.skip(0) =~= all);
    while start < cols.len()
        invariant
            start <= cols.len(),
            all == lists::views(cols@),
            scroll_limit(all, avail as int) == start + scroll_limit(
                all.skip(start as int),
                avail as int,
            ),
        decreases cols.len() - start,
    {
        if width_from(cols, start) <= avail as u128 {
            return start;
        }
        assert(all.skip(start as int).drop_first() =~= all.skip(start + 1));
        start += 1;
    }
    start
}

/// The table as it is drawn.
#[derive(Debug)]
pub struct TablePlan {
    pub title: String,
    /// The headings of the columns, with their widths.
    pub headings: Vec<Heading>,
    /// One line of fields for each row.
    pub rows: Vec<Line>,
    /// The row under the cursor, and the first row on the screen.
    pub cursor: Option<(usize, usize)>,
    /// The vertical scrollbar: how many rows there are, and the place.
    pub v_scroll: Option<(usize, usize)>,
    /// The horizontal scrollbar: how many columns there are, and the place.
    pub h_scroll: Option<(usize, usize)>,
}

/// The heading of a column.
#[derive(Debug)]
pub struct Heading {
    pub label: String,
    pub width: u16,
}

impl View for Heading {
    type V = (Seq<char>, int);

    open spec fn view(&self) -> (Seq<char>, int) {
        (self.label@, self.width as int)
    }
}

/// What the plan of a table holds.
#[verifier::ext_equal]
pub struct TableView {
    pub title: Seq<char>,
    pub headings: Seq<(Seq<char>, int)>,
    pub rows: Seq<Seq<SpanView>>,
    pub cursor: Option<(usize, usize)>,
    pub v_scroll: Option<(usize, usize)>,
    pub h_scroll: Option<(usize, usize)>,
}

impl View for TablePlan {
    type V = TableView;

    open spec fn view(&self) -> TableView {
        TableView {
            title: self.title@,
            headings: lists::views(self.headings@),
            rows: lists::views(self.rows@),
            cursor: self.cursor,
            v_scroll: self.v_scroll,
            h_scroll: self.h_scroll,
        }
    }
}

/// The headings of some columns.
pub open spec fn headings_of(cols: Seq<ColumnView>) -> Seq<(Seq<char>, int)> {
    Seq::new(cols.len(), |i: int| (columns::header_of(cols[i]), columns::width_of(cols[i])))
}

/// The fields of a row.
pub open spec fn fields_of(cols: Seq<ColumnView>, t: RowView) -> Seq<SpanView> {
    Seq::new(cols.len(), |i: int| cell_of(cols[i], t))
}

/// The fields of all rows.
pub open spec fn table_rows(cols: Seq<ColumnView>, rows: Seq<RowView>) -> Seq<Seq<SpanView>> {
    Seq::new(rows.len(), |i: int| fields_of(cols, rows[i]))
}

fn build_headings(cols: &[TableColumn]) -> (r: Vec<Heading>)
    ensures
        lists::views(r@) == headings_of(lists::views(cols@)),
{
    let ghost goal = headings_of(lists::views(cols@));
    let mut out: Vec<Heading> = Vec::new();
    let mut i: usize = 0;
    assert(lists::views(out@) =~= goal.take(0));
    while i < cols.len()
        invariant
            i <= cols.len(),
            goal == headings_of(lists::views(cols@)),
            lists::views(out@) == goal.take(i as int),
        decreases cols.len() - i,
    {
        let h = Heading { label: cols[i].header_label(), width: cols[i].width() };
        proof {
            lists::lemma_views_push(out@, h);
            text::lemma_take_step(goal, i as int);
            assert(lists::views(cols@)[i as int] == cols@[i as int]@);
        }
        out.push(h);
        i += 1;
    }
    assert(goal.take(goal.len() as int) =~= goal);
    out
}

fn build_fields(cols: &[TableColumn], t: &PortThroughput) -> (r: Line)
    ensures
        r@ == fields_of(lists::views(cols@), t@),
{
    let ghost goal = fields_of(lists::views(cols@), t@);
    let mut out: Vec<Span> = Vec::new();
    let mut i: usize = 0;
    assert(lists::views(out@) =~= goal.take(0));
    while i < cols.len()
        invariant
            i <= cols.len(),
            goal == fields_of(lists::views(cols@), t@),
            lists::views(out@) == goal.take(i as int),
        decreases cols.len() - i,
    {
        let cell = column_cell(&cols[i], t);
        proof {
            lists::lemma_views_push(out@, cell);
            text::lemma_take_step(goal, i as int);
            assert(lists::views(cols@)[i as int] == cols@[i as int]@);
        }
        out.push(cell);
        i += 1;
    }
    assert(goal.take(goal.len() as int) =~= goal);
    Line { spans: out }
}

fn build_rows(cols: &[TableColumn], rows: &[PortThroughput]) -> (r: Vec<Line>)
    ensures
        lists::views(r@) == table_rows(lists::views(cols@), lists::views(rows@)),
{
    let ghost goal = table_rows(lists::views(cols@), lists::views(rows@));
    let mut out: Vec<Line> = Vec::new();
    let mut i: usize = 0;
    assert(lists::views(out@) =~= goal.take(0));
    while i < rows.len()
        invariant
            i <= rows.len(),
            goal == table_rows(lists::views(cols@), lists::views(rows@)),
            lists::views(out@) == goal.take(i as int),
        decreases rows.len() - i,
    {
        let line = build_fields(cols, &rows[i]);
        proof {
            lists::lemma_views_push(out@, line);
            text::lemma_take_step(goal, i as int);
            assert(lists::views(rows@)[i as int] == rows@[i as int]@);
        }
        out.push(line);
        i += 1;
    }
    assert(goal.take(goal.len() as int) =~= goal);
    out
}

/// The first row on the screen: moved as little as keeps the cursor in view.
pub open spec fn offset_for(offset: usize, selected: usize, viewport: int) -> usize {
    if viewport == 0 {
        offset
    } else if selected >= offset + viewport {
        (selected + 1 - viewport) as usize
    } else if selected < offset {
        selected
    } else {
        offset
    }
}

/// The columns that are drawn: the default ones beside the detail pane, and
/// otherwise those of the user that fit from where they are scrolled to.
pub open spec fn drawn_columns(a: AppView, width: u16) -> Seq<ColumnView> {
    if a.show_detail {
        columns::default_view()
    } else {
        fitting_columns(columns_from(a.columns, a.h_scroll as int), 0, less_by(width, 4))
    }
}

/// The state with the columns scrolled no further than they can be.
pub open spec fn columns_laid_out(a: AppView, width: u16) -> AppView {
    if a.show_detail {
        a
    } else {
        let limit = scroll_limit(a.columns, less_by(width, 4)) as usize;
        AppView {
            h_scroll_max: limit,
            h_scroll: if a.h_scroll > limit {
                limit
            } else {
                a.h_scroll
            },
            ..a
        }
    }
}

/// The state with the cursor in view.
pub open spec fn rows_laid_out(a: AppView, height: u16) -> AppView {
    if a.cached_display.len() > 0 {
        AppView {
            table_offset: offset_for(a.table_offset, a.selected_row, less_by(height, 4)),
            ..a
        }
    } else {
        a
    }
}

/// The state after the table was laid out: the scroll limits follow the size
/// of the screen.
pub open spec fn table_laid_out(a: AppView, width: u16, height: u16) -> AppView {
    rows_laid_out(columns_laid_out(a, width), height)
}

/// The table as it is drawn on a screen of some size.
pub open spec fn table_view(a: AppView, width: u16, height: u16) -> TableView {
    let b = table_laid_out(a, width, height);
    let cols = drawn_columns(a, width);
    let n = a.cached_display.len();
    TableView {
        title: table_title(a),
        headings: headings_of(cols),
        rows: table_rows(cols, a.cached_display),
        cursor: if n > 0 {
            Some((b.selected_row, b.table_offset))
        } else {
            None
        },
        v_scroll: if !a.show_detail && n > less_by(height, 4) {
            Some((n as usize, b.selected_row))
        } else {
            None
        },
        h_scroll: if !a.show_detail && (a.columns.len() > cols.len() || b.h_scroll > 0) {
            Some((a.columns.len() as usize, b.h_scroll))
        } else {
            None
        },
    }
}

fn lay_columns(app: &mut App, width: u16) -> (r: Vec<TableColumn>)
    ensures
        lists::views(r@) == drawn_columns(old(app)@, width),
        final(app)@ == columns_laid_out(old(app)@, width),
{
    // In detail mode, use default columns with no scrolling.
    // In normal mode, use configured columns with horizontal scroll.
    if app.show_detail {
        return columns::default_columns();
    }
    let avail: u16 = width.saturating_sub(4);
    let visible = visible_columns(app.columns.as_slice(), app.h_scroll, avail);
    app.h_scroll_max = max_scroll(app.columns.as_slice(), avail);
    if app.h_scroll > app.h_scroll_max {
        app.h_scroll = app.h_scroll_max;
    }
    visible
}

fn lay_rows(app: &mut App, height: u16)
    ensures
        final(app)@ == rows_laid_out(old(app)@, height),
{
    assert(app@.cached_display.len() == app.cached_display@.len());
    if app.cached_display.len() > 0 {
        let viewport: usize = height.saturating_sub(4) as usize;
        if viewport > 0 {
            if app.selected_row as u128 >= app.table_offset as u128 + viewport as u128 {
                app.table_offset = app.selected_row - (viewport - 1);
            } else if app.selected_row < app.table_offset {
                app.table_offset = app.selected_row;
            }
        }
    }
}

/// Lays the table out on an area of some size.
pub fn draw_table(app: &mut App, width: u16, height: u16) -> (r: TablePlan)
    requires
        app::app_ok(old(app)@),
    ensures
        r@ == table_view(old(app)@, width, height),
        final(app)@ == table_laid_out(old(app)@, width, height),
        app::app_ok(final(app)@),
{
    let title = title_of_table(app);
    let cols = lay_columns(app, width);
    lay_rows(app, height);
    let headings = build_headings(cols.as_slice());
    let rows = build_rows(cols.as_slice(), app.cached_display.as_slice());
    let n: usize = app.cached_display.len();
    let total: usize = app.columns.len();
    assert(n == old(app)@.cached_display.len());
    assert(total == old(app)@.columns.len());
    assert(cols@.len() == drawn_columns(old(app)@, width).len());
    let cursor: Option<(usize, usize)> = if n > 0 {
        Some((app.selected_row, app.table_offset))
    } else {
        None
    };
    let v_scroll: Option<(usize, usize)> = if !app.show_detail && n > height.saturating_sub(
        4,
    ) as usize {
        Some((n, app.selected_row))
    } else {
        None
    };
    let h_scroll: Option<(usize, usize)> = if !app.show_detail && (total > cols.len()
        || app.h_scroll > 0) {
        Some((total, app.h_scroll))
    } else {
        None
    };
    TablePlan { title, headings, rows, cursor, v_scroll, h_scroll }
}

/// The width of a history line in cells.
pub const SPARK_WIDTH: usize = 30;

/// The mark of averaged rates; empty when they are not.
pub open spec fn average_mark(show_avg: bool, avg_window: int) -> Seq<char> {
    if show_avg {
        "  [avg "@ + text::decimal(avg_window as nat) + "s]"@
    } else {
        ""@
    }
}

fn write_average_mark(show_avg: bool, avg_window: usize) -> (r: String)
    ensures
        r@ == average_mark(show_avg, avg_window as int),
{
    if show_avg {
        let mut out = "  [avg ".to_owned();
        out.append(text::decimal_u64(avg_window as u64).as_str());
        out.append("s]");
        out
    } else {
        "".to_owned()
    }
}

/// A history line; blank without a history.
pub open spec fn spark(rates: Option<Seq<MeanView>>, tone: ToneView) -> SpanView {
    match rates {
        Some(r) => spans::figure(
            ""@,
            NumberView::Spark { rates: r, width: SPARK_WIDTH as int },
            0,
            ""@,
            tone,
        ),
        None => spans::words(text::repeated(' ', SPARK_WIDTH as int), tone, false),
    }
}

/// The line of one direction: its throughput and its history.
pub open spec fn direction_line(
    label: Seq<char>,
    rate: MeanView,
    rates: Option<Seq<MeanView>>,
    tone: ToneView,
) -> Seq<SpanView> {
    seq![
        spans::words(label, ToneView::Muted, false),
        spans::figure(""@, NumberView::Gbps(rate), 0, " Gbps "@, tone),
        spark(rates, tone),
    ]
}

/// The transmit history.
pub open spec fn tx_history(h: Option<HistoryView>) -> Option<Seq<MeanView>> {
    match h {
        Some(x) => Some(x.tx),
        None => None,
    }
}

/// The receive history.
pub open spec fn rx_history(h: Option<HistoryView>) -> Option<Seq<MeanView>> {
    match h {
        Some(x) => Some(x.rx),
        None => None,
    }
}

/// The line of what a device transmits.
pub open spec fn tx_line(t: RowView, h: Option<HistoryView>) -> Seq<SpanView> {
    direction_line(" TX: "@, t.tx_bytes, tx_history(h), ToneView::Good)
}

/// The line of what a device receives.
pub open spec fn rx_line(t: RowView, h: Option<HistoryView>) -> Seq<SpanView> {
    direction_line(" RX: "@, t.rx_bytes, rx_history(h), ToneView::Accent)
}

fn build_tx_line(t: &PortThroughput, history: Option<&DeviceHistory>) -> (r: Line)
    ensures
        r@ == tx_line(t@, lists::opt_view(history)),
{
    let shown = match history {
        Some(h) => {
            let rates = h.tx.clone();
            assert(lists::views(rates@) =~= lists::views(h.tx@));
            spans::numbered("", Number::Spark { rates, width: SPARK_WIDTH }, 0, "", Tone::Good)
        },
        None => spans::styled(
            text::repeat_char(' ', SPARK_WIDTH).as_str(),
            Tone::Good,
            false,
        ),
    };
    let parts = vec![
        spans::styled(" TX: ", Tone::Muted, false),
        spans::numbered("", Number::Gbps(t.tx_bytes.clone()), 0, " Gbps ", Tone::Good),
        shown,
    ];
    assert(lists::views(parts@) =~= tx_line(t@, lists::opt_view(history)));
    Line { spans: parts }
}

fn build_rx_line(t: &PortThroughput, history: Option<&DeviceHistory>) -> (r: Line)
    ensures
        r@ == rx_line(t@, lists::opt_view(history)),
{
    let shown = match history {
        Some(h) => {
            let rates = h.rx.clone();
            assert(lists::views(rates@) =~= lists::views(h.rx@));
            spans::numbered("", Number::Spark { rates, width: SPARK_WIDTH }, 0, "", Tone::Accent)
        },
        None => spans::styled(
            text::repeat_char(' ', SPARK_WIDTH).as_str(),
            Tone::Accent,
            false,
        ),
    };
    let parts = vec![
        spans::styled(" RX: ", Tone::Muted, false),
        spans::numbered("", Number::Gbps(t.rx_bytes.clone()), 0, " Gbps ", Tone::Accent),
        shown,
    ];
    assert(lists::views(parts@) =~= rx_line(t@, lists::opt_view(history)));
    Line { spans: parts }
}

/// The head of a GPU pane: the device, the kind of its links and how many of
/// them are active.
pub open spec fn gpu_head(
    dev: Seq<char>,
    kind: Seq<char>,
    active: u32,
    links: nat,
    mark: Seq<char>,
) -> Seq<SpanView> {
    seq![
        spans::words(" Device: "@, ToneView::Muted, false),
        spans::words(dev, ToneView::Accent, true),
        spans::words(kind, ToneView::Accent, false),
        spans::words(
            text::decimal(active as nat) + "/"@ + text::decimal(links) + " active"@,
            ToneView::Fg,
            false,
        ),
        spans::words(mark, ToneView::Accent, false),
    ]
}

fn build_gpu_head(dev: &str, kind: &str, active: u32, links: usize, mark: &str) -> (r: Line)
    ensures
        r@ == gpu_head(dev@, kind@, active, links as nat, mark@),
{
    let mut count = text::decimal_u64(active as u64);
    count.append("/");
    count.append(text::decimal_u64(links as u64).as_str());
    count.append(" active");
    let parts = vec![
        spans::styled(" Device: ", Tone::Muted, false),
        spans::styled(dev, Tone::Accent, true),
        spans::styled(kind, Tone::Accent, false),
        spans::styled(count.as_str(), Tone::Fg, false),
        spans::styled(mark, Tone::Accent, false),
    ];
    assert(lists::views(parts@) =~= gpu_head(dev@, kind@, active, links as nat, mark@));
    Line { spans: parts }
}

/// What is at the other end of an NVLink; a dash when nothing is known.
pub open spec fn remote_text(bdf: Option<Seq<char>>, kind: RemoteDeviceType) -> Seq<char> {
    match bdf {
        Some(b) => kind.text() + " "@ + b,
        None => if kind == RemoteDeviceType::Unknown {
            "-"@
        } else {
            kind.text()
        },
    }
}

fn remote_label(bdf: &Option<String>, kind: RemoteDeviceType) -> (r: String)
    ensures
        r@ == remote_text(lists::opt_text(*bdf), kind),
{
    match bdf {
        Some(b) => {
            let mut out = kind.label().to_owned();
            out.append(" ");
            out.append(b.as_str());
            out
        },
        None => if kind == RemoteDeviceType::Unknown {
            "-".to_owned()
        } else {
            kind.label().to_owned()
        },
    }
}

/// The rate of a lane: its own, or that of the whole GPU where it has none.
pub open spec fn lane_number(own: Option<Rate>, gpu: MeanView) -> NumberView {
    match own {
        Some(r) => NumberView::LinkMegabytes(r),
        None => NumberView::GpuMegabytes(gpu),
    }
}

fn lane_rate(own: Option<Rate>, gpu: &Mean) -> (r: Number)
    ensures
        r@ == lane_number(own, gpu@),
{
    match own {
        Some(rate) => Number::LinkMegabytes(rate),
        None => Number::GpuMegabytes(gpu.clone()),
    }
}

/// A number in a right-aligned field behind some text.
pub open spec fn right_field(before: Seq<char>, s: Seq<char>, width: int) -> Seq<char> {
    before + text::padded_left(s, ' ', width)
}

fn align_right(before: &str, s: &str, width: usize) -> (r: String)
    ensures
        r@ == right_field(before@, s@, width as int),
{
    let mut out = before.to_owned();
    out.append(text::pad_left(s, ' ', width).as_str());
    out
}

/// Text in a left-aligned field behind some text.
pub open spec fn left_field(before: Seq<char>, s: Seq<char>, width: int) -> Seq<char> {
    before + text::padded_right(s, width)
}

fn align_left(before: &str, s: &str, width: usize) -> (r: String)
    ensures
        r@ == left_field(before@, s@, width as int),
{
    let mut out = before.to_owned();
    out.append(text::pad_right(s, width).as_str());
    out
}

/// The line of one NVLink lane.
pub open spec fn lane_line(l: NvLinkRateView, t: RowView) -> Seq<SpanView> {
    seq![
        spans::words(
            right_field(" "@, text::decimal(l.link.link_id as nat), 4),
            ToneView::Accent,
            false,
        ),
        spans::words(
            left_field(
                "  "@,
                if l.link.is_active {
                    "enabled"@
                } else {
                    "disabled"@
                },
                8,
            ),
            if l.link.is_active {
                ToneView::Good
            } else {
                ToneView::Muted
            },
            false,
        ),
        spans::words(
            right_field(
                "  "@,
                match l.link.version {
                    Some(v) => text::decimal(v as nat),
                    None => "-"@,
                },
                3,
            ),
            ToneView::Fg,
            false,
        ),
        spans::figure("  "@, lane_number(l.tx_rate, t.tx_bytes), 6, ""@, ToneView::Fg),
        spans::figure("  "@, lane_number(l.rx_rate, t.rx_bytes), 6, ""@, ToneView::Fg),
        spans::words(
            "  "@ + remote_text(l.link.remote_pci_bdf, l.link.remote_device_type),
            ToneView::Muted,
            false,
        ),
    ]
}

fn build_lane_line(l: &NvLinkRate, t: &PortThroughput) -> (r: Line)
    ensures
        r@ == lane_line(l@, t@),
{
    let id = text::decimal_u64(l.link.link_id as u64);
    let (state, tone) = if l.link.is_active {
        ("enabled", Tone::Good)
    } else {
        ("disabled", Tone::Muted)
    };
    let version = match l.link.version {
        Some(v) => text::decimal_u64(v as u64),
        None => "-".to_owned(),
    };
    let mut remote = "  ".to_owned();
    remote.append(
        remote_label(&l.link.remote_pci_bdf, l.link.remote_device_type).as_str(),
    );
    let parts = vec![
        spans::styled(align_right(" ", id.as_str(), 4).as_str(), Tone::Accent, false),
        spans::styled(align_left("  ", state, 8).as_str(), tone, false),
        spans::styled(align_right("  ", version.as_str(), 3).as_str(), Tone::Fg, false),
        spans::numbered("  ", lane_rate(l.tx_rate, &t.tx_bytes), 6, "", Tone::Fg),
        spans::numbered("  ", lane_rate(l.rx_rate, &t.rx_bytes), 6, "", Tone::Fg),
        spans::styled(remote.as_str(), Tone::Muted, false),
    ];
    assert(lists::views(parts@) =~= lane_line(l@, t@));
    Line { spans: parts }
}

/// A sum that stops at what 64 bits hold.
pub open spec fn capped_sum(a: int, b: int) -> int {
    if a + b > u64::MAX {
        u64::MAX as int
    } else {
        a + b
    }
}

/// A count that may be missing; a missing one is zero.
pub open spec fn count_of(c: Option<u64>) -> int {
    match c {
        Some(v) => v as int,
        None => 0,
    }
}

/// The replay, recovery and CRC errors of all lanes together.
pub open spec fn lane_errors(links: Seq<NvLinkRateView>) -> (int, int, int)
    decreases links.len(),
{
    if links.len() == 0 {
        (0, 0, 0)
    } else {
        let before = lane_errors(links.drop_last());
        let l = links.last().link;
        (
            capped_sum(before.0, count_of(l.replay_error_count)),
            capped_sum(before.1, count_of(l.recovery_error_count)),
            capped_sum(before.2, count_of(l.crc_error_count)),
        )
    }
}

fn count(c: Option<u64>) -> (r: u64)
    ensures
        r == count_of(c),
{
    match c {
        Some(v) => v,
        None => 0,
    }
}

fn sum_lane_errors(links: &[NvLinkRate]) -> (r: (u64, u64, u64))
    ensures
        r.0 == lane_errors(lists::views(links@)).0,
        r.1 == lane_errors(lists::views(links@)).1,
        r.2 == lane_errors(lists::views(links@)).2,
{
    let ghost all = lists::views(links@);
    let mut replay: u64 = 0;
    let mut recovery: u64 = 0;
    let mut crc: u64 = 0;
    let mut i: usize = 0;
    while i < links.len()
        invariant
            i <= links.len(),
            all == lists::views(links@),
            replay == lane_errors(all.take(i as int)).0,
            recovery == lane_errors(all.take(i as int)).1,
            crc == lane_errors(all.take(i as int)).2,
        decreases links.len() - i,
    {
        let l = &links[i].link;
        proof {
            text::lemma_take_step(all, i as int);
            assert(all[i as int] == links@[i as int]@);
        }
        crc = crc.saturating_add(count(l.crc_error_count));
        replay = replay.saturating_add(count(l.replay_error_count));
        recovery = recovery.saturating_add(count(l.recovery_error_count));
        i += 1;
    }
    assert(all.take(all.len() as int) =~= all);
    (replay, recovery, crc)
}

/// The line of the errors of all lanes.
pub open spec fn lane_error_line(links: Seq<NvLinkRateView>) -> Seq<SpanView> {
    let e = lane_errors(links);
    seq![
        spans::words(" Errors: "@, ToneView::Muted, false),
        spans::words("replay="@ + text::decimal(e.0 as nat), ToneView::Warning, false),
        spans::words("  "@, ToneView::Muted, false),
        spans::words("recovery="@ + text::decimal(e.1 as nat), ToneView::Warning, false),
        spans::words("  "@, ToneView::Muted, false),
        spans::words("crc="@ + text::decimal(e.2 as nat), ToneView::Warning, false),
    ]
}

fn labelled(label: &str, value: u64) -> (r: Span)
    ensures
        r@ == spans::words(label@ + text::decimal(value as nat), ToneView::Warning, false),
{
    let mut out = label.to_owned();
    out.append(text::decimal_u64(value).as_str());
    spans::styled(out.as_str(), Tone::Warning, false)
}

fn build_lane_error_line(links: &[NvLinkRate]) -> (r: Line)
    ensures
        r@ == lane_error_line(lists::views(links@)),
{
    let (replay, recovery, crc): (u64, u64, u64) = sum_lane_errors(links);
    let parts = vec![
        spans::styled(" Errors: ", Tone::Muted, false),
        labelled("replay=", replay),
        spans::styled("  ", Tone::Muted, false),
        labelled("recovery=", recovery),
        spans::styled("  ", Tone::Muted, false),
        labelled("crc=", crc),
    ];
    assert(lists::views(parts@) =~= lane_error_line(lists::views(links@)));
    Line { spans: parts }
}

/// What stands above the lanes: NVML does not expose per-lane throughput
/// everywhere.
pub const LANE_NOTE: &'static str = " Per-lane throughput is not available from NVML on some drivers; values below show either per-lane rate or the GPU aggregate.";

/// The heading of the lanes.
pub const LANE_HEADER: &'static str = " Lane  State     Ver   TX MB/s   RX MB/s  Remote";

/// The lines of all lanes.
pub open spec fn lane_lines(links: Seq<NvLinkRateView>, t: RowView) -> Seq<Seq<SpanView>> {
    Seq::new(links.len(), |i: int| lane_line(links[i], t))
}

/// The detail pane of an NVIDIA GPU: device, throughput, one line for each
/// lane, and the errors of all lanes.
pub open spec fn nvlink_pane(
    t: RowView,
    meta: NvLinkMetaView,
    h: Option<HistoryView>,
    mark: Seq<char>,
) -> Seq<Seq<SpanView>> {
    seq![
        gpu_head(t.dev_name, "  [NVLink]  "@, meta.active_links, meta.links.len(), mark),
        tx_line(t, h),
        rx_line(t, h),
        seq![],
        seq![spans::words(LANE_NOTE@, ToneView::Muted, false)],
        seq![spans::words(LANE_HEADER@, ToneView::HeaderFg, true)],
    ] + lane_lines(meta.links, t) + seq![seq![], lane_error_line(meta.links)]
}

/// Build the per-lane detail panel for a NVLink GPU row.
///
/// Layout:
///   Device: nvidiaN  [NVLink]  active/total active
///   TX/RX aggregate Gbps with sparkline
///   Lane table header (Lane, State, Ver, TX MB/s, RX MB/s, Remote)
///   One row per link, including inactive lanes
///   Summed error counters (replay/recovery/crc)
pub fn build_nvlink_detail_lines(
    t: &PortThroughput,
    meta: &NvLinkThroughputMeta,
    history: Option<&DeviceHistory>,
    show_avg: bool,
    avg_window: usize,
) -> (r: Vec<Line>)
    ensures
        lists::views(r@) == nvlink_pane(
            t@,
            meta@,
            lists::opt_view(history),
            average_mark(show_avg, avg_window as int),
        ),
{
    let ghost goal = nvlink_pane(
        t@,
        meta@,
        lists::opt_view(history),
        average_mark(show_avg, avg_window as int),
    );
    let mark = write_average_mark(show_avg, avg_window);
    let mut out = vec![
        build_gpu_head(
            t.dev_name.as_str(),
            "  [NVLink]  ",
            meta.active_links,
            meta.links.len(),
            mark.as_str(),
        ),
        build_tx_line(t, history),
        build_rx_line(t, history),
        spans::blank(),
        spans::single(spans::styled(LANE_NOTE, Tone::Muted, false)),
        spans::single(spans::styled(LANE_HEADER, Tone::HeaderFg, true)),
    ];
    let ghost n = meta@.links.len() as int;
    let mut i: usize = 0;
    assert(meta.links@.len() == n);
    assert(lists::views(out@) =~= goal.take(6));
    while i < meta.links.len()
        invariant
            i <= meta.links.len(),
            n == meta.links@.len(),
            goal == nvlink_pane(
                t@,
                meta@,
                lists::opt_view(history),
                average_mark(show_avg, avg_window as int),
            ),
            lists::views(out@) == goal.take(6 + i),
        decreases meta.links.len() - i,
    {
        let line = build_lane_line(&meta.links[i], t);
        proof {
            lists::lemma_views_push(out@, line);
            text::lemma_take_step(goal, 6 + i);
            assert(meta@.links[i as int] == meta.links@[i as int]@);
            assert(goal[6 + i] == line@);
        }
        out.push(line);
        i += 1;
    }
    let gap = spans::blank();
    let errors = build_lane_error_line(meta.links.as_slice());
    proof {
        lists::lemma_views_push(out@, gap);
        lists::lemma_views_push(out@.push(gap), errors);
        text::lemma_take_step(goal, 6 + n);
        text::lemma_take_step(goal, 7 + n);
        assert(goal[6 + n] == Seq::<SpanView>::empty());
        assert(goal[7 + n] == errors@);
        assert(goal.take(8 + n) =~= goal);
    }
    out.push(gap);
    out.push(errors);
    out
}

/// A link speed in whole Gb/s, to the nearest; a dash when it is not known.
pub open spec fn speed_text(mbps: Option<u64>) -> Seq<char> {
    match mbps {
        Some(v) => text::decimal(spans::half_even(v as nat, 1000)),
        None => "-"@,
    }
}

/// The other end of an XGMI link, which is always a GPU; a dash when its
/// address is not known.
pub open spec fn peer_text(bdf: Option<Seq<char>>) -> Seq<char> {
    match bdf {
        Some(b) => "GPU "@ + b,
        None => "-"@,
    }
}

/// The rate field of an XGMI link; a dash when the link has no counter.
pub open spec fn link_field(own: Option<Rate>) -> SpanView {
    match own {
        Some(r) => spans::figure("  "@, NumberView::LinkMegabytes(r), 7, ""@, ToneView::Fg),
        None => spans::words(right_field("  "@, "-"@, 7), ToneView::Fg, false),
    }
}

fn build_link_field(own: Option<Rate>) -> (r: Span)
    ensures
        r@ == link_field(own),
{
    match own {
        Some(rate) => spans::numbered("  ", Number::LinkMegabytes(rate), 7, "", Tone::Fg),
        None => spans::styled(align_right("  ", "-", 7).as_str(), Tone::Fg, false),
    }
}

/// The line of one XGMI link.
pub open spec fn xgmi_line(l: XgmiLinkRateView) -> Seq<SpanView> {
    seq![
        spans::words(
            right_field(" "@, text::decimal(l.link.link_id as nat), 4),
            ToneView::Accent,
            false,
        ),
        spans::words(
            left_field(
                "  "@,
                if l.link.is_active {
                    "up"@
                } else {
                    "down"@
                },
                6,
            ),
            if l.link.is_active {
                ToneView::Good
            } else {
                ToneView::Muted
            },
            false,
        ),
        spans::words(right_field("  "@, speed_text(l.link.speed_mbps), 4), ToneView::Fg, false),
        link_field(l.tx_rate),
        link_field(l.rx_rate),
        spans::words("  "@ + peer_text(l.link.remote_pci_bdf), ToneView::Muted, false),
    ]
}

fn build_xgmi_line(l: &XgmiLinkRate) -> (r: Line)
    ensures
        r@ == xgmi_line(l@),
{
    let id = text::decimal_u64(l.link.link_id as u64);
    let (state, tone) = if l.link.is_active {
        ("up", Tone::Good)
    } else {
        ("down", Tone::Muted)
    };
    let speed = match l.link.speed_mbps {
        Some(v) => text::decimal_u128(spans::divide_half_even(v as u128, 1000)),
        None => "-".to_owned(),
    };
    let peer = match &l.link.remote_pci_bdf {
        Some(bdf) => {
            let mut out = "GPU ".to_owned();
            out.append(bdf.as_str());
            out
        },
        None => "-".to_owned(),
    };
    let mut remote = "  ".to_owned();
    remote.append(peer.as_str());
    let parts = vec![
        spans::styled(align_right(" ", id.as_str(), 4).as_str(), Tone::Accent, false),
        spans::styled(align_left("  ", state, 6).as_str(), tone, false),
        spans::styled(align_right("  ", speed.as_str(), 4).as_str(), Tone::Fg, false),
        build_link_field(l.tx_rate),
        build_link_field(l.rx_rate),
        spans::styled(remote.as_str(), Tone::Muted, false),
    ];
    assert(lists::views(parts@) =~= xgmi_line(l@));
    Line { spans: parts }
}

/// The value of the first counter with a name; zero without one.
pub open spec fn counter_count(rates: Seq<CounterRateView>, name: Seq<char>) -> u64 {
    match rolling::counter_named(rates, name) {
        Some(c) => c.value,
        None => 0,
    }
}

fn count_named(rates: &[CounterRate], name: &str) -> (r: u64)
    ensures
        r == counter_count(lists::views(rates@), name@),
{
    let ghost all = lists::views(rates@);
    let mut i: usize = 0;
    assert(all.skip(0) =~= all);
    while i < rates.len()
        invariant
            i <= rates.len(),
            all == lists::views(rates@),
            rolling::counter_named(all, name@) == rolling::counter_named(
                all.skip(i as int),
                name@,
            ),
        decreases rates.len() - i,
    {
        assert(all.skip(i as int)[0] == rates@[i as int]@);
        if text::same(rates[i].name.as_str(), name) {
            return rates[i].value;
        }
        assert(all.skip(i as int).drop_first() =~= all.skip(i + 1));
        i += 1;
    }
    0
}

/// The line of the errors of an AMD GPU.
pub open spec fn wafl_line(rates: Seq<CounterRateView>) -> Seq<SpanView> {
    seq![
        spans::words(" Errors: "@, ToneView::Muted, false),
        spans::words(
            "wafl_ce="@ + text::decimal(counter_count(rates, "xgmi_wafl_ce"@) as nat),
            ToneView::Warning,
            false,
        ),
        spans::words("  "@, ToneView::Muted, false),
        spans::words(
            "wafl_ue="@ + text::decimal(counter_count(rates, "xgmi_wafl_ue"@) as nat),
            ToneView::Warning,
            false,
        ),
    ]
}

fn build_wafl_line(rates: &[CounterRate]) -> (r: Line)
    ensures
        r@ == wafl_line(lists::views(rates@)),
{
    let ce: u64 = count_named(rates, "xgmi_wafl_ce");
    let ue: u64 = count_named(rates, "xgmi_wafl_ue");
    let parts = vec![
        spans::styled(" Errors: ", Tone::Muted, false),
        labelled("wafl_ce=", ce),
        spans::styled("  ", Tone::Muted, false),
        labelled("wafl_ue=", ue),
    ];
    assert(lists::views(parts@) =~= wafl_line(lists::views(rates@)));
    Line { spans: parts }
}

/// The heading of the XGMI links.
pub const LINK_HEADER: &'static str = " Link  State   Gbps   TX MB/s   RX MB/s  Remote";

/// The lines of all XGMI links.
pub open spec fn xgmi_lines(links: Seq<XgmiLinkRateView>) -> Seq<Seq<SpanView>> {
    Seq::new(links.len(), |i: int| xgmi_line(links[i]))
}

/// The detail pane of an AMD GPU.
pub open spec fn xgmi_pane(
    t: RowView,
    meta: XgmiMetaView,
    h: Option<HistoryView>,
    mark: Seq<char>,
) -> Seq<Seq<SpanView>> {
    seq![
        gpu_head(t.dev_name, "  [XGMI]  "@, meta.active_links, meta.links.len(), mark),
        tx_line(t, h),
        rx_line(t, h),
        seq![],
        seq![spans::words(LINK_HEADER@, ToneView::HeaderFg, true)],
    ] + xgmi_lines(meta.links) + seq![seq![], wafl_line(t.counter_rates)]
}

/// Build the per-link detail panel for an XGMI GPU row.
/// Layout mirrors the NVLink pane: header, TX/RX sparklines, a link table
/// (Link, State, Gbps, TX MB/s, RX MB/s, Remote), then XGMI_WAFL ECC counts.
pub fn build_xgmi_detail_lines(
    t: &PortThroughput,
    meta: &XgmiThroughputMeta,
    history: Option<&DeviceHistory>,
    show_avg: bool,
    avg_window: usize,
) -> (r: Vec<Line>)
    ensures
        lists::views(r@) == xgmi_pane(
            t@,
            meta@,
            lists::opt_view(history),
            average_mark(show_avg, avg_window as int),
        ),
{
    let ghost goal = xgmi_pane(
        t@,
        meta@,
        lists::opt_view(history),
        average_mark(show_avg, avg_window as int),
    );
    let mark = write_average_mark(show_avg, avg_window);
    let mut out = vec![
        build_gpu_head(
            t.dev_name.as_str(),
            "  [XGMI]  ",
            meta.active_links,
            meta.links.len(),
            mark.as_str(),
        ),
        build_tx_line(t, history),
        build_rx_line(t, history),
        spans::blank(),
        spans::single(spans::styled(LINK_HEADER, Tone::HeaderFg, true)),
    ];
    let ghost n = meta@.links.len() as int;
    let mut i: usize = 0;
    assert(meta.links@.len() == n);
    assert(lists::views(out@) =~= goal.take(5));
    while i < meta.links.len()
        invariant
            i <= meta.links.len(),
            n == meta.links@.len(),
            goal == xgmi_pane(
                t@,
                meta@,
                lists::opt_view(history),
                average_mark(show_avg, avg_window as int),
            ),
            lists::views(out@) == goal.take(5 + i),
        decreases meta.links.len() - i,
    {
        let line = build_xgmi_line(&meta.links[i]);
        proof {
            lists::lemma_views_push(out@, line);
            text::lemma_take_step(goal, 5 + i);
            assert(meta@.links[i as int] == meta.links@[i as int]@);
            assert(goal[5 + i] == line@);
        }
        out.push(line);
        i += 1;
    }
    let gap = spans::blank();
    let errors = build_wafl_line(t.counter_rates.as_slice());
    proof {
        lists::lemma_views_push(out@, gap);
        lists::lemma_views_push(out@.push(gap), errors);
        text::lemma_take_step(goal, 5 + n);
        text::lemma_take_step(goal, 6 + n);
        assert(goal[5 + n] == Seq::<SpanView>::empty());
        assert(goal[6 + n] == errors@);
        assert(goal.take(7 + n) =~= goal);
    }
    out.push(gap);
    out.push(errors);
    out
}

/// The head of the pane of an RDMA device.
pub open spec fn device_head(t: RowView, h: Option<HistoryView>, mark: Seq<char>) -> Seq<
    Seq<SpanView>,
> {
    seq![
        seq![
            spans::words(" Device: "@, ToneView::Muted, false),
            spans::words(
                t.dev_name + "/"@ + text::decimal(t.port as nat),
                ToneView::Accent,
                true,
            ),
            spans::words(mark, ToneView::Accent, false),
        ],
        tx_line(t, h),
        rx_line(t, h),
        seq![],
    ]
}

/// Builds the head of the pane of an RDMA device.
pub fn build_device_header(
    t: &PortThroughput,
    history: Option<&DeviceHistory>,
    show_avg: bool,
    avg_window: usize,
) -> (r: Vec<Line>)
    ensures
        lists::views(r@) == device_head(
            t@,
            lists::opt_view(history),
            average_mark(show_avg, avg_window as int),
        ),
{
    let mark = write_average_mark(show_avg, avg_window);
    let mut name = t.dev_name.clone();
    name.append("/");
    name.append(text::decimal_u64(t.port as u64).as_str());
    let parts = vec![
        spans::styled(" Device: ", Tone::Muted, false),
        spans::styled(name.as_str(), Tone::Accent, true),
        spans::styled(mark.as_str(), Tone::Accent, false),
    ];
    let ghost goal = device_head(
        t@,
        lists::opt_view(history),
        average_mark(show_avg, avg_window as int),
    );
    assert(lists::views(parts@) =~= goal[0]);
    let out = vec![
        Line { spans: parts },
        build_tx_line(t, history),
        build_rx_line(t, history),
        spans::blank(),
    ];
    assert(lists::views(out@) =~= goal);
    out
}

/// Whether a counter is shown: it has counted something, or it is one of
/// those that can be added as a column.
pub open spec fn counter_shown(c: CounterRateView) -> bool {
    c.value > 0 || columns::extra_names().contains(c.name)
}

/// Whether a text comes before another one, character by character.
pub open spec fn text_before(a: Seq<char>, b: Seq<char>) -> bool
    decreases a.len(),
{
    if b.len() == 0 {
        false
    } else if a.len() == 0 {
        true
    } else if a[0] != b[0] {
        a[0] < b[0]
    } else {
        text_before(a.drop_first(), b.drop_first())
    }
}

proof fn lemma_text_before(a: Seq<char>, b: Seq<char>)
    requires
        text_before(a, b),
    ensures
        !text_before(b, a),
    decreases a.len(),
{
    if a.len() > 0 && b.len() > 0 && a[0] == b[0] {
        lemma_text_before(a.drop_first(), b.drop_first());
    }
}

fn comes_before(a: &str, b: &str) -> (r: bool)
    ensures
        r == text_before(a@, b@),
{
    let x = text::chars_of(a);
    let y = text::chars_of(b);
    let mut i: usize = 0;
    assert(a@.skip(0) =~= a@);
    assert(b@.skip(0) =~= b@);
    while i < x.len() && i < y.len()
        invariant
            i <= x.len(),
            i <= y.len(),
            x@ == a@,
            y@ == b@,
            text_before(a@, b@) == text_before(a@.skip(i as int), b@.skip(i as int)),
        decreases x.len() - i,
    {
        proof {
            assert(a@.skip(i as int)[0] == a@[i as int]);
            assert(b@.skip(i as int)[0] == b@[i as int]);
            assert(a@.skip(i as int).drop_first() =~= a@.skip(i + 1));
            assert(b@.skip(i as int).drop_first() =~= b@.skip(i + 1));
        }
        if x[i] != y[i] {
            return x[i] < y[i];
        }
        i += 1;
    }
    i < y.len()
}

/// A counter with the place of its rate among all rates, the highest first.
#[derive(Debug)]
pub struct RankedCounter {
    pub rank: usize,
    pub counter: CounterRate,
}

impl View for RankedCounter {
    type V = (int, CounterRateView);

    open spec fn view(&self) -> (int, CounterRateView) {
        (self.rank as int, self.counter@)
    }
}

impl lists::Ordered for RankedCounter {
    /// Most useful first: active rates, then accumulated, then alphabetical.
    open spec fn less(a: (int, CounterRateView), b: (int, CounterRateView)) -> bool {
        if a.0 != b.0 {
            a.0 < b.0
        } else if a.1.value != b.1.value {
            a.1.value > b.1.value
        } else {
            text_before(a.1.name, b.1.name)
        }
    }

    fn before(&self, other: &Self) -> (r: bool) {
        if self.rank != other.rank {
            self.rank < other.rank
        } else if self.counter.value != other.counter.value {
            self.counter.value > other.counter.value
        } else {
            let r: bool = comes_before(self.counter.name.as_str(), other.counter.name.as_str());
            proof {
                if r {
                    lemma_text_before(self.counter.name@, other.counter.name@);
                }
            }
            r
        }
    }
}

/// The counters that are shown, with their ranks.
pub open spec fn shown_counters(rates: Seq<CounterRateView>, ranks: Seq<usize>) -> Seq<
    (int, CounterRateView),
>
    decreases rates.len(),
{
    if rates.len() == 0 || ranks.len() != rates.len() {
        seq![]
    } else {
        let before = shown_counters(rates.drop_last(), ranks.drop_last());
        if counter_shown(rates.last()) {
            before.push((ranks.last() as int, rates.last()))
        } else {
            before
        }
    }
}

fn is_extra(name: &str) -> (r: bool)
    ensures
        r == columns::extra_names().contains(name@),
{
    let names = columns::extra_counters();
    let ghost all = columns::extra_names();
    assert(text::strings(names@).len() == names@.len());
    let mut i: usize = 0;
    while i < names.len()
        invariant
            i <= names.len(),
            all == columns::extra_names(),
            all == text::strings(names@),
            forall|k: int| 0 <= k < i ==> all[k] != name@,
        decreases names.len() - i,
    {
        assert(all[i as int] == names@[i as int]@);
        if text::same(names[i].as_str(), name) {
            return true;
        }
        i += 1;
    }
    false
}

fn pick_counters(rates: &[CounterRate], ranks: &[usize]) -> (r: Vec<RankedCounter>)
    requires
        ranks@.len() == rates@.len(),
    ensures
        lists::views(r@) == shown_counters(lists::views(rates@), ranks@),
{
    let ghost all = lists::views(rates@);
    let mut out: Vec<RankedCounter> = Vec::new();
    let mut i: usize = 0;
    assert(lists::views(out@) =~= shown_counters(all.take(0), ranks@.take(0)));
    while i < rates.len()
        invariant
            i <= rates.len(),
            ranks@.len() == rates@.len(),
            all == lists::views(rates@),
            lists::views(out@) == shown_counters(all.take(i as int), ranks@.take(i as int)),
        decreases rates.len() - i,
    {
        let c = &rates[i];
        proof {
            text::lemma_take_step(all, i as int);
            text::lemma_take_step(ranks@, i as int);
            assert(all[i as int] == c@);
        }
        if c.value > 0 || is_extra(c.name.as_str()) {
            let item = RankedCounter { rank: ranks[i], counter: c.clone() };
            proof {
                lists::lemma_views_push(out@, item);
            }
            out.push(item);
        }
        i += 1;
    }
    assert(all.take(all.len() as int) =~= all);
    assert(ranks@.take(ranks@.len() as int) =~= ranks@);
    out
}

/// The tone of a counter: an error or a warning by its name, where it has
/// changed.
pub open spec fn counter_tone(c: CounterRateView) -> ToneView {
    if c.delta == 0 {
        ToneView::Muted
    } else if text::has_infix(c.name, "err"@) || text::has_infix(c.name, "drop"@) {
        ToneView::Error
    } else if text::has_infix(c.name, "retrans"@) || text::has_infix(c.name, "unresponsive"@)
        || text::has_infix(c.name, "impaired"@) {
        ToneView::Warning
    } else {
        ToneView::Good
    }
}

/// Decides the tone of a counter.
pub fn counter_color(c: &CounterRate) -> (r: Tone)
    ensures
        r@ == counter_tone(c@),
{
    let name = c.name.as_str();
    if c.delta == 0 {
        Tone::Muted
    } else if text::contains(name, "err") || text::contains(name, "drop") {
        Tone::Error
    } else if text::contains(name, "retrans") || text::contains(name, "unresponsive")
        || text::contains(name, "impaired") {
        Tone::Warning
    } else {
        Tone::Good
    }
}

/// The line of one counter.
pub open spec fn counter_line(c: CounterRateView) -> Seq<SpanView> {
    seq![
        spans::words(left_field("  "@, c.name, 35), ToneView::Fg, false),
        spans::figure(""@, counter_number(c.rate, c.is_bytes), 12, ""@, counter_tone(c)),
        spans::words("  Δ "@ + text::decimal(c.delta as nat), ToneView::Muted, false),
    ]
}

/// Builds the line of one counter.
pub fn counter_rate_line(c: &CounterRate) -> (r: Line)
    ensures
        r@ == counter_line(c@),
{
    let mut change = "  Δ ".to_owned();
    change.append(text::decimal_u64(c.delta).as_str());
    let parts = vec![
        spans::styled(align_left("  ", c.name.as_str(), 35).as_str(), Tone::Fg, false),
        spans::numbered("", rate_number(c.rate.clone(), c.is_bytes), 12, "", counter_color(c)),
        spans::styled(change.as_str(), Tone::Muted, false),
    ];
    assert(lists::views(parts@) =~= counter_line(c@));
    Line { spans: parts }
}

/// The lines of some counters.
pub open spec fn counter_lines(counters: Seq<(int, CounterRateView)>) -> Seq<Seq<SpanView>> {
    Seq::new(counters.len(), |i: int| counter_line(counters[i].1))
}

/// The part of the pane with the counters; nothing when none is shown.
pub open spec fn counter_part(rates: Seq<CounterRateView>, ranks: Seq<usize>) -> Seq<Seq<SpanView>> {
    let ordered = lists::sorted::<RankedCounter>(shown_counters(rates, ranks));
    if ordered.len() == 0 {
        seq![]
    } else {
        counter_lines(ordered).push(seq![])
    }
}

/// Shows every counter that is carrying signal: one that has accumulated some
/// value, or one that can be added as a column. `ranks` holds for every
/// counter the place of its rate, the highest first.
pub fn append_active_counters(lines: &mut Vec<Line>, t: &PortThroughput, ranks: &[usize])
    requires
        ranks@.len() == t@.counter_rates.len(),
    ensures
        lists::views(final(lines)@) == lists::views(old(lines)@) + counter_part(
            t@.counter_rates,
            ranks@,
        ),
{
    assert(t.counter_rates@.len() == t@.counter_rates.len());
    let ghost start = lists::views(lines@);
    let ordered = lists::sort(pick_counters(t.counter_rates.as_slice(), ranks));
    let ghost order = lists::views(ordered@);
    let ghost goal = counter_lines(order);
    assert(start + Seq::<Seq<SpanView>>::empty() =~= start);
    if ordered.len() > 0 {
        let mut i: usize = 0;
        assert(start + goal.take(0) =~= start);
        while i < ordered.len()
            invariant
                i <= ordered.len(),
                order == lists::views(ordered@),
                goal == counter_lines(order),
                lists::views(lines@) == start + goal.take(i as int),
            decreases ordered.len() - i,
        {
            let line = counter_rate_line(&ordered[i].counter);
            proof {
                lists::lemma_views_push(lines@, line);
                text::lemma_take_step(goal, i as int);
                assert(order[i as int] == ordered@[i as int]@);
                assert((start + goal.take(i as int)).push(line@) =~= start + goal.take(i + 1));
            }
            lines.push(line);
            i += 1;
        }
        let gap = spans::blank();
        proof {
            lists::lemma_views_push(lines@, gap);
            assert(goal.take(goal.len() as int) =~= goal);
            assert((start + goal).push(gap@) =~= start + goal.push(seq![]));
        }
        lines.push(gap);
    }
}

/// The heading of the processes.
pub const PROC_HEADER: &'static str = "  PID     USER     NI S     VIRT      RES    SHR  MEM%   QPs  THR COMMAND";

/// The tone of a process state.
pub open spec fn state_tone(state: char) -> ToneView {
    match state {
        'R' => ToneView::Good,
        'S' => ToneView::Muted,
        'I' => ToneView::Muted,
        'D' => ToneView::Warning,
        'Z' => ToneView::Error,
        'T' => ToneView::Error,
        _ => ToneView::Fg,
    }
}

fn state_color(state: char) -> (r: Tone)
    ensures
        r@ == state_tone(state),
{
    match state {
        'R' => Tone::Good,
        'S' => Tone::Muted,
        'I' => Tone::Muted,
        'D' => Tone::Warning,
        'Z' => Tone::Error,
        'T' => Tone::Error,
        _ => Tone::Fg,
    }
}

/// Whether the user and the command of a process can be cut to their fields.
pub open spec fn process_fits(p: ProcessRdmaInfoView) -> bool {
    spans::cuts_cleanly(p.user, 8) && spans::cuts_cleanly(p.cmdline, 40)
}

/// Tests whether the user and the command of a process can be cut.
pub fn can_show_process(p: &ProcessRdmaInfo) -> (r: bool)
    ensures
        r == process_fits(p@),
{
    spans::can_truncate(p.user.as_str(), 8) && spans::can_truncate(p.cmdline.as_str(), 40)
}

/// The line of one process.
pub open spec fn process_spans(p: ProcessRdmaInfoView) -> Seq<SpanView> {
    seq![
        spans::words(left_field("  "@, text::decimal(p.pid as nat), 7), ToneView::Accent, false),
        spans::words(left_field(" "@, spans::truncated(p.user, 8), 8), ToneView::Fg, false),
        spans::words(
            left_field(" "@, text::signed_decimal(p.nice as int), 2),
            ToneView::Muted,
            false,
        ),
        spans::words(" "@.push(p.state), state_tone(p.state), false),
        spans::words(right_field(" "@, spans::mem_text(p.virt_kb), 8), ToneView::Fg, false),
        spans::words(right_field(" "@, spans::mem_text(p.res_kb), 8), ToneView::Good, false),
        spans::words(right_field(" "@, spans::mem_text(p.shr_kb), 6), ToneView::Fg, false),
        spans::figure(
            " "@,
            NumberView::Percent { part: p.res_kb as nat, whole: p.mem_total_kb as nat },
            4,
            ""@,
            ToneView::Fg,
        ),
        spans::words(
            right_field(" "@, text::decimal(p.qp_count as nat), 5),
            ToneView::Accent,
            false,
        ),
        spans::words(
            right_field(" "@, text::decimal(p.threads as nat), 4),
            ToneView::Muted,
            false,
        ),
        spans::words(" "@ + spans::truncated(p.cmdline, 40), ToneView::Fg, false),
    ]
}

/// Builds the line of one process.
pub fn process_line(p: &ProcessRdmaInfo) -> (r: Line)
    requires
        process_fits(p@),
    ensures
        r@ == process_spans(p@),
{
    let user = spans::truncate(p.user.as_str(), 8);
    let nice = text::decimal_i64(p.nice as i64);
    let mut state = " ".to_owned();
    state.push(p.state);
    let mut command = " ".to_owned();
    command.append(spans::truncate(p.cmdline.as_str(), 40).as_str());
    let pid = text::decimal_u64(p.pid as u64);
    let qps = text::decimal_u64(p.qp_count as u64);
    let threads = text::decimal_u64(p.threads as u64);
    let virt = spans::fmt_mem_kb(p.virt_kb);
    let res = spans::fmt_mem_kb(p.res_kb);
    let shr = spans::fmt_mem_kb(p.shr_kb);
    let share = Number::Percent { part: p.res_kb as u128, whole: p.mem_total_kb as u128 };
    let parts = vec![
        spans::styled(align_left("  ", pid.as_str(), 7).as_str(), Tone::Accent, false),
        spans::styled(align_left(" ", user.as_str(), 8).as_str(), Tone::Fg, false),
        spans::styled(align_left(" ", nice.as_str(), 2).as_str(), Tone::Muted, false),
        spans::styled(state.as_str(), state_color(p.state), false),
        spans::styled(align_right(" ", virt.as_str(), 8).as_str(), Tone::Fg, false),
        spans::styled(align_right(" ", res.as_str(), 8).as_str(), Tone::Good, false),
        spans::styled(align_right(" ", shr.as_str(), 6).as_str(), Tone::Fg, false),
        spans::numbered(" ", share, 4, "", Tone::Fg),
        spans::styled(align_right(" ", qps.as_str(), 5).as_str(), Tone::Accent, false),
        spans::styled(align_right(" ", threads.as_str(), 4).as_str(), Tone::Muted, false),
        spans::styled(command.as_str(), Tone::Fg, false),
    ];
    assert(lists::views(parts@) =~= process_spans(p@));
    Line { spans: parts }
}

/// The part of the pane with the processes.
pub open spec fn process_part(procs: Seq<ProcessRdmaInfoView>) -> Seq<Seq<SpanView>> {
    seq![seq![spans::words(PROC_HEADER@, ToneView::HeaderFg, true)]] + if procs.len() == 0 {
        seq![seq![spans::words("  (no RDMA processes)"@, ToneView::Muted, false)]]
    } else {
        Seq::new(procs.len(), |i: int| process_spans(procs[i]))
    }
}

/// Whether all processes can be cut to their fields.
pub open spec fn processes_fit(procs: Seq<ProcessRdmaInfoView>) -> bool {
    forall|i: int| 0 <= i < procs.len() ==> process_fits(#[trigger] procs[i])
}

/// Appends the processes that use a device.
pub fn append_process_table(lines: &mut Vec<Line>, procs: &[ProcessRdmaInfo])
    requires
        processes_fit(lists::views(procs@)),
    ensures
        lists::views(final(lines)@) == lists::views(old(lines)@) + process_part(
            lists::views(procs@),
        ),
{
    let ghost start = lists::views(lines@);
    let ghost all = lists::views(procs@);
    let ghost goal = process_part(all);
    let head = spans::single(spans::styled(PROC_HEADER, Tone::HeaderFg, true));
    proof {
        lists::lemma_views_push(lines@, head);
        assert(goal[0] == head@);
        assert(start.push(head@) =~= start + goal.take(1));
    }
    lines.push(head);
    if procs.len() == 0 {
        let none = spans::single(spans::styled("  (no RDMA processes)", Tone::Muted, false));
        proof {
            lists::lemma_views_push(lines@, none);
            assert(goal[1] == none@);
            assert((start + goal.take(1)).push(none@) =~= start + goal);
        }
        lines.push(none);
    } else {
        let mut i: usize = 0;
        while i < procs.len()
            invariant
                i <= procs.len(),
                procs.len() > 0,
                all == lists::views(procs@),
                processes_fit(all),
                goal == process_part(all),
                lists::views(lines@) == start + goal.take(1 + i),
            decreases procs.len() - i,
        {
            assert(all[i as int] == procs@[i as int]@);
            let line = process_line(&procs[i]);
            proof {
                lists::lemma_views_push(lines@, line);
                assert(goal[1 + i] == line@);
                text::lemma_take_step(goal, 1 + i);
                assert((start + goal.take(1 + i)).push(line@) =~= start + goal.take(2 + i));
            }
            lines.push(line);
            i += 1;
        }
        assert(goal.take(1 + all.len() as int) =~= goal);
    }
}

/// The detail pane of an RDMA device.
pub open spec fn device_pane(
    t: RowView,
    procs: Seq<ProcessRdmaInfoView>,
    h: Option<HistoryView>,
    mark: Seq<char>,
    ranks: Seq<usize>,
) -> Seq<Seq<SpanView>> {
    device_head(t, h, mark) + counter_part(t.counter_rates, ranks) + process_part(procs)
}

/// Builds the detail pane of an RDMA device.
pub fn build_detail_lines(
    t: &PortThroughput,
    procs: &[ProcessRdmaInfo],
    history: Option<&DeviceHistory>,
    show_avg: bool,
    avg_window: usize,
    ranks: &[usize],
) -> (r: Vec<Line>)
    requires
        ranks@.len() == t@.counter_rates.len(),
        processes_fit(lists::views(procs@)),
    ensures
        lists::views(r@) == device_pane(
            t@,
            lists::views(procs@),
            lists::opt_view(history),
            average_mark(show_avg, avg_window as int),
            ranks@,
        ),
{
    let mut lines = build_device_header(t, history, show_avg, avg_window);
    append_active_counters(&mut lines, t, ranks);
    append_process_table(&mut lines, procs);
    lines
}

/// The detail pane of the selected row.
pub open spec fn selected_pane(
    t: RowView,
    procs: Seq<ProcessRdmaInfoView>,
    h: Option<HistoryView>,
    mark: Seq<char>,
    ranks: Seq<usize>,
) -> Seq<Seq<SpanView>> {
    match t.nvlink {
        Some(meta) => nvlink_pane(t, meta, h, mark),
        None => match t.xgmi {
            Some(meta) => xgmi_pane(t, meta, h, mark),
            None => device_pane(t, procs, h, mark, ranks),
        },
    }
}

/// Whether the pane of a row is that of an RDMA device, the only one that shows
/// counters by rank and processes.
pub open spec fn shows_device(t: RowView) -> bool {
    t.nvlink is None && t.xgmi is None
}

/// Pick the right detail pane builder for the selected row: NVLink pane,
/// XGMI pane, or the generic RDMA device pane.
pub fn build_selected_detail_lines(
    t: &PortThroughput,
    procs: &[ProcessRdmaInfo],
    history: Option<&DeviceHistory>,
    show_avg: bool,
    avg_window: usize,
    ranks: &[usize],
) -> (r: Vec<Line>)
    requires
        shows_device(t@) ==> ranks@.len() == t@.counter_rates.len(),
        shows_device(t@) ==> processes_fit(lists::views(procs@)),
    ensures
        lists::views(r@) == selected_pane(
            t@,
            lists::views(procs@),
            lists::opt_view(history),
            average_mark(show_avg, avg_window as int),
            ranks@,
        ),
{
    if let Some(meta) = &t.nvlink {
        return build_nvlink_detail_lines(t, meta, history, show_avg, avg_window);
    }
    if let Some(meta) = &t.xgmi {
        return build_xgmi_detail_lines(t, meta, history, show_avg, avg_window);
    }
    build_detail_lines(t, procs, history, show_avg, avg_window, ranks)
}

/// The detail pane as it is drawn.
#[derive(Debug)]
pub struct DetailPlan {
    pub title: String,
    pub lines: Vec<Line>,
}

/// The row under the cursor, if there is one.
pub open spec fn selected_of(a: AppView) -> Option<RowView> {
    if a.selected_row < a.cached_display.len() {
        Some(a.cached_display[a.selected_row as int])
    } else {
        None
    }
}

/// The lines of the detail pane.
pub open spec fn detail_lines(a: AppView, t: RowView, ranks: Seq<usize>) -> Seq<Seq<SpanView>> {
    selected_pane(
        t,
        app::processes_of(a.processes, t.dev_name),
        app::history_at(a.history, t.dev_name),
        average_mark(a.show_rolling_avg, a.rolling_avg.window_secs),
        ranks,
    )
}

/// The title of the detail pane.
pub open spec fn detail_title(a: AppView, t: RowView) -> Seq<char> {
    if a.show_rolling_avg {
        " "@ + t.dev_name + " (avg "@ + text::decimal(a.rolling_avg.window_secs as nat) + "s) "@
    } else {
        " "@ + t.dev_name + " "@
    }
}

/// How far some lines can be scrolled on a pane of some height; the lines are
/// counted in 16 bits.
pub open spec fn scroll_room(lines: nat, height: u16) -> u16 {
    let n = (lines % 0x1_0000) as int;
    let visible = less_by(height, 2);
    if n > visible {
        (n - visible) as u16
    } else {
        0
    }
}

/// Lays the detail pane out on an area of some height; none when no row is
/// selected.
pub fn draw_detail(app: &mut App, height: u16, ranks: &[usize]) -> (r: Option<DetailPlan>)
    requires
        app::app_ok(old(app)@),
        match selected_of(old(app)@) {
            Some(t) => shows_device(t) ==> ranks@.len() == t.counter_rates.len()
                && processes_fit(app::processes_of(old(app)@.processes, t.dev_name)),
            None => true,
        },
    ensures
        match selected_of(old(app)@) {
            Some(t) => r is Some && r->0.title@ == detail_title(old(app)@, t) && lists::views(
                r->0.lines@,
            ) == detail_lines(old(app)@, t, ranks@) && final(app)@ == (AppView {
                detail_max_scroll: scroll_room(
                    detail_lines(old(app)@, t, ranks@).len(),
                    height,
                ),
                ..old(app)@
            }),
            None => r is None && final(app)@ == old(app)@,
        },
        app::app_ok(final(app)@),
{
    let procs = app.selected_device_processes();
    let (lines, title): (Vec<Line>, String) = match app.selected_throughput() {
        Some(t) => {
            let history = app.history_of(t.dev_name.as_str());
            let lines = build_selected_detail_lines(
                t,
                procs.as_slice(),
                history,
                app.show_rolling_avg,
                app.rolling_avg.window_secs,
                ranks,
            );
            let mut title = " ".to_owned();
            title.append(t.dev_name.as_str());
            if app.show_rolling_avg {
                title.append(" (avg ");
                title.append(text::decimal_u64(app.rolling_avg.window_secs as u64).as_str());
                title.append("s) ");
            } else {
                title.append(" ");
            }
            (lines, title)
        },
        None => {
            return None;
        },
    };
    assert(lines@.len() == lists::views(lines@).len());
    let n: u16 = (lines.len() as u64 % 0x1_0000) as u16;
    let visible: u16 = height.saturating_sub(2);
    app.detail_max_scroll = n.saturating_sub(visible);
    Some(DetailPlan { title, lines })
}

/// The keys named in the status bar.
pub open spec fn keys_text(a: AppView) -> Seq<char> {
    " ↑↓/jk:nav  "@ + if a.show_detail {
        "Enter/Esc:close"@
    } else {
        "Enter:detail"@
    } + "  t:theme  <>:refresh  r:rec  h:help  q:quit"@ + if a.show_rolling_avg {
        "  a:avg[ON "@ + text::decimal(a.rolling_avg.window_secs as nat)
            + "s]  +/-:window  w:set"@
    } else {
        "  a:avg  w:set"@
    }
}

/// The mark of a running recording: its length and its samples.
pub open spec fn recording_text(secs: u64, samples: nat) -> Seq<char> {
    " ● REC "@ + text::decimal((secs / 60) as nat) + ":"@ + text::padded_left(
        text::decimal((secs % 60) as nat),
        '0',
        2,
    ) + " ("@ + text::decimal(samples) + ") "@
}

/// What the status bar says of a recording.
pub open spec fn recording_spans(a: AppView, now: u64) -> Seq<SpanView> {
    match a.recorder {
        Some(rec) => seq![
            spans::words(
                recording_text(trace::span(now, rec.start) / 1_000_000_000, rec.samples.len()),
                ToneView::Recording,
                true,
            ),
        ],
        None => match a.record_status {
            Some(msg) => seq![spans::words(" "@ + msg + " "@, ToneView::Fg, false)],
            None => seq![],
        },
    }
}

/// The status bar.
pub open spec fn status_spans(a: AppView, now: u64) -> Seq<SpanView> {
    seq![spans::words(" NORMAL "@, ToneView::Mode, true)] + recording_spans(a, now) + seq![
        spans::words(keys_text(a), ToneView::Muted, false),
    ]
}

fn write_keys(app: &App) -> (r: String)
    ensures
        r@ == keys_text(app@),
{
    let mut out = " ↑↓/jk:nav  ".to_owned();
    out.append(
        if app.show_detail {
            "Enter/Esc:close"
        } else {
            "Enter:detail"
        },
    );
    out.append("  t:theme  <>:refresh  r:rec  h:help  q:quit");
    let average = if app.show_rolling_avg {
        let mut on = "  a:avg[ON ".to_owned();
        on.append(text::decimal_u64(app.rolling_avg.window_secs as u64).as_str());
        on.append("s]  +/-:window  w:set");
        on
    } else {
        "  a:avg  w:set".to_owned()
    };
    out.append(average.as_str());
    out
}

/// Builds the status bar.
pub fn draw_status_bar(app: &App, now: u64) -> (r: Line)
    ensures
        r@ == status_spans(app@, now),
{
    let keys = write_keys(app);
    let mode = spans::styled(" NORMAL ", Tone::Mode, true);
    let hints = spans::styled(keys.as_str(), Tone::Muted, false);
    let mut parts: Vec<Span> = Vec::new();
    parts.push(mode);
    if let Some((secs, samples)) = app.recording_progress(now) {
        let mut out = " ● REC ".to_owned();
        out.append(text::decimal_u64(secs / 60).as_str());
        out.append(":");
        let rest = text::decimal_u64(secs % 60);
        out.append(text::pad_left(rest.as_str(), '0', 2).as_str());
        out.append(" (");
        out.append(text::decimal_u64(samples as u64).as_str());
        out.append(") ");
        parts.push(spans::styled(out.as_str(), Tone::Recording, true));
    } else if let Some(msg) = &app.record_status {
        let mut out = " ".to_owned();
        out.append(msg.as_str());
        out.append(" ");
        parts.push(spans::styled(out.as_str(), Tone::Fg, false));
    }
    parts.push(hints);
    assert(lists::views(parts@) =~= status_spans(app@, now));
    Line { spans: parts }
}

/// The keys of the help popup with what they do; a line without a key is a
/// heading.
pub open spec fn help_keys() -> Seq<(Seq<char>, Seq<char>)> {
    seq![
        ("↑ / k"@, "Move up"@),
        ("↓ / j"@, "Move down"@),
        ("← / →"@, "Scroll columns"@),
        ("Enter"@, "Toggle detail panel"@),
        ("Esc"@, "Close detail / quit"@),
        ("t"@, "Cycle theme"@),
        ("a"@, "Toggle rolling average"@),
        ("+ / ="@, "Increase avg window (+1s)"@),
        ("-"@, "Decrease avg window (-1s)"@),
        ("w"@, "Set avg window (custom)"@),
        ("< / >"@, "Refresh faster / slower (±0.5s)"@),
        ("c"@, "Configure columns"@),
        ("r"@, "Record Perfetto trace (start/stop)"@),
        ("h"@, "Toggle this help"@),
        ("q"@, "Quit"@),
        (""@, ""@),
        (""@, "── Detail mode ──"@),
        ("↑ / k"@, "Scroll up"@),
        ("↓ / j"@, "Scroll down"@),
        (""@, "Scroll past end → next device"@),
        (""@, "Scroll past top  → prev device"@),
    ]
}

/// One line of the help popup.
pub open spec fn help_spans(key: Seq<char>, desc: Seq<char>) -> Seq<SpanView> {
    if key.len() == 0 {
        seq![spans::words("  "@ + desc, ToneView::GroupTitle, false)]
    } else {
        seq![
            spans::words(left_field("  "@, key, 14), ToneView::Accent, false),
            spans::words(desc, ToneView::Fg, false),
        ]
    }
}

/// Builds one line of the help popup.
pub fn help_line(key: &str, desc: &str) -> (r: Line)
    ensures
        r@ == help_spans(key@, desc@),
{
    if key.unicode_len() == 0 {
        let mut out = "  ".to_owned();
        out.append(desc);
        spans::single(spans::styled(out.as_str(), Tone::GroupTitle, false))
    } else {
        let parts = vec![
            spans::styled(align_left("  ", key, 14).as_str(), Tone::Accent, false),
            spans::styled(desc, Tone::Fg, false),
        ];
        assert(lists::views(parts@) =~= help_spans(key@, desc@));
        Line { spans: parts }
    }
}

/// The lines of the help popup.
pub open spec fn help_lines() -> Seq<Seq<SpanView>> {
    Seq::new(help_keys().len(), |i: int| help_spans(help_keys()[i].0, help_keys()[i].1))
}

/// Builds the help popup.
pub fn draw_help_popup() -> (r: Vec<Line>)
    ensures
        lists::views(r@) == help_lines(),
{
    let r = vec![
        help_line("↑ / k", "Move up"),
        help_line("↓ / j", "Move down"),
        help_line("← / →", "Scroll columns"),
        help_line("Enter", "Toggle detail panel"),
        help_line("Esc", "Close detail / quit"),
        help_line("t", "Cycle theme"),
        help_line("a", "Toggle rolling average"),
        help_line("+ / =", "Increase avg window (+1s)"),
        help_line("-", "Decrease avg window (-1s)"),
        help_line("w", "Set avg window (custom)"),
        help_line("< / >", "Refresh faster / slower (±0.5s)"),
        help_line("c", "Configure columns"),
        help_line("r", "Record Perfetto trace (start/stop)"),
        help_line("h", "Toggle this help"),
        help_line("q", "Quit"),
        help_line("", ""),
        help_line("", "── Detail mode ──"),
        help_line("↑ / k", "Scroll up"),
        help_line("↓ / j", "Scroll down"),
        help_line("", "Scroll past end → next device"),
        help_line("", "Scroll past top  → prev device"),
    ];
    assert(lists::views(r@) =~= help_lines());
    r
}

/// The lines of the window popup.
pub open spec fn window_popup(buf: Seq<char>) -> Seq<Seq<SpanView>> {
    seq![
        seq![
            spans::words(" Window (1-300s): "@, ToneView::Muted, false),
            spans::words(buf, ToneView::Accent, true),
            spans::words("▏"@, ToneView::Accent, false),
        ],
        seq![spans::words(" Enter:confirm  Esc:cancel"@, ToneView::Muted, false)],
    ]
}

/// Builds the window popup.
pub fn draw_window_input_popup(app: &App) -> (r: Vec<Line>)
    ensures
        lists::views(r@) == window_popup(app@.window_input_buf),
{
    let parts = vec![
        spans::styled(" Window (1-300s): ", Tone::Muted, false),
        spans::styled(app.window_input_buf.as_str(), Tone::Accent, true),
        spans::styled("▏", Tone::Accent, false),
    ];
    assert(lists::views(parts@) =~= window_popup(app@.window_input_buf)[0]);
    let r = vec![
        Line { spans: parts },
        spans::single(spans::styled(" Enter:confirm  Esc:cancel", Tone::Muted, false)),
    ];
    assert(lists::views(r@) =~= window_popup(app@.window_input_buf));
    r
}

/// The line of a column in the picker: whether the cursor is on it, and
/// whether it is shown.
pub open spec fn picker_line(col: ColumnView, at_cursor: bool, enabled: bool) -> Seq<SpanView> {
    seq![
        spans::words(
            " "@ + if at_cursor {
                "▶"@
            } else {
                " "@
            } + " "@ + if enabled {
                "[x]"@
            } else {
                "[ ]"@
            } + " "@ + columns::label_of(col),
            if at_cursor {
                ToneView::Accent
            } else if enabled {
                ToneView::Fg
            } else {
                ToneView::Muted
            },
            at_cursor,
        ),
    ]
}

/// The lines of the column picker.
pub open spec fn picker_lines(cols: Seq<ColumnView>, cursor: usize) -> Seq<Seq<SpanView>> {
    Seq::new(
        columns::all_view().len(),
        |i: int|
            picker_line(
                columns::all_view()[i],
                i == cursor,
                cols.contains(columns::all_view()[i]),
            ),
    )
}

fn column_enabled(cols: &[TableColumn], col: &TableColumn) -> (r: bool)
    ensures
        r == lists::views(cols@).contains(col@),
{
    let ghost all = lists::views(cols@);
    let mut i: usize = 0;
    while i < cols.len()
        invariant
            i <= cols.len(),
            all == lists::views(cols@),
            forall|k: int| 0 <= k < i ==> all[k] != col@,
        decreases cols.len() - i,
    {
        assert(all[i as int] == cols@[i as int]@);
        if cols[i].is(col) {
            return true;
        }
        i += 1;
    }
    false
}

fn build_picker_line(col: &TableColumn, at_cursor: bool, enabled: bool) -> (r: Line)
    ensures
        r@ == picker_line(col@, at_cursor, enabled),
{
    let mut out = " ".to_owned();
    out.append(
        if at_cursor {
            "▶"
        } else {
            " "
        },
    );
    out.append(" ");
    out.append(
        if enabled {
            "[x]"
        } else {
            "[ ]"
        },
    );
    out.append(" ");
    out.append(col.label().as_str());
    let tone = if at_cursor {
        Tone::Accent
    } else if enabled {
        Tone::Fg
    } else {
        Tone::Muted
    };
    spans::single(spans::styled(out.as_str(), tone, at_cursor))
}

/// Builds the column picker.
pub fn draw_column_picker(app: &App) -> (r: Vec<Line>)
    ensures
        lists::views(r@) == picker_lines(app@.columns, app@.column_picker_cursor),
{
    let ghost goal = picker_lines(app@.columns, app@.column_picker_cursor);
    let all = columns::all_columns();
    let mut out: Vec<Line> = Vec::new();
    let mut i: usize = 0;
    assert(lists::views(all@).len() == all@.len());
    assert(lists::views(out@) =~= goal.take(0));
    while i < all.len()
        invariant
            i <= all.len(),
            lists::views(all@) == columns::all_view(),
            all@.len() == columns::all_view().len(),
            goal == picker_lines(app@.columns, app@.column_picker_cursor),
            lists::views(out@) == goal.take(i as int),
        decreases all.len() - i,
    {
        let col = &all[i];
        let enabled: bool = column_enabled(app.columns.as_slice(), col);
        let line = build_picker_line(col, i == app.column_picker_cursor, enabled);
        proof {
            assert(columns::all_view()[i as int] == col@);
            lists::lemma_views_push(out@, line);
            text::lemma_take_step(goal, i as int);
            assert(goal[i as int] == line@);
        }
        out.push(line);
        i += 1;
    }
    assert(goal.take(goal.len() as int) =~= goal);
    out
}

/// An area of the screen in cells.
#[derive(Clone, Copy, Debug, PartialEq, Eq, Structural)]
pub struct Area {
    pub x: u16,
    pub y: u16,
    pub width: u16,
    pub height: u16,
}

/// Whether an area lies on a screen.
pub open spec fn on_screen(a: Area) -> bool {
    a.x + a.width <= u16::MAX && a.y + a.height <= u16::MAX
}

/// An area of some size in the middle of another one.
pub fn centered_rect(area: Area, w: u16, h: u16) -> (r: Area)
    requires
        on_screen(area),
    ensures
        r.x == area.x + less_by(area.width, w as int) / 2,
        r.y == area.y + less_by(area.height, h as int) / 2,
        r.width == w,
        r.height == h,
{
    Area {
        x: area.x + area.width.saturating_sub(w) / 2,
        y: area.y + area.height.saturating_sub(h) / 2,
        width: w,
        height: h,
    }
}

/// The smaller of a wished size and what a screen leaves beside a margin.
pub open spec fn popup_size(wish: u16, screen: u16) -> int {
    if wish < less_by(screen, 4) {
        wish as int
    } else {
        less_by(screen, 4)
    }
}

/// The area of a popup of a wished size, in the middle of the screen.
pub fn popup_rect(area: Area, w: u16, h: u16) -> (r: Area)
    requires
        on_screen(area),
    ensures
        r.width == popup_size(w, area.width),
        r.height == popup_size(h, area.height),
        r.x == area.x + (area.width - r.width) / 2,
        r.y == area.y + (area.height - r.height) / 2,
{
    let room_w: u16 = area.width.saturating_sub(4);
    let room_h: u16 = area.height.saturating_sub(4);
    let width: u16 = if w < room_w {
        w
    } else {
        room_w
    };
    let height: u16 = if h < room_h {
        h
    } else {
        room_h
    };
    centered_rect(area, width, height)
}

/// The wished sizes of the popups: width and height.
pub const HELP_SIZE: (u16, u16) = (50, 18);

pub const WINDOW_SIZE: (u16, u16) = (40, 5);

/// The width of the column picker; it is as high as it has columns and four
/// lines more.
pub const PICKER_WIDTH: u16 = 45;

/// The wished size of the column picker.
pub fn picker_size() -> (r: (u16, u16))
    ensures
        r.0 == PICKER_WIDTH,
        r.1 == columns::all_view().len() + 4,
{
    let all = columns::all_columns();
    assert(lists::views(all@).len() == 26);
    (PICKER_WIDTH, (all.len() + 4) as u16)
}

/// The cursor is on the screen whenever the screen has room for a row.
pub proof fn law_cursor_in_view(a: AppView, width: u16, height: u16)
    requires
        a.cached_display.len() > 0,
        less_by(height, 4) > 0,
    ensures
        table_laid_out(a, width, height).table_offset <= a.selected_row,
        a.selected_row < table_laid_out(a, width, height).table_offset + less_by(height, 4),
{
}

/// The columns are never scrolled past the limit that was computed for the
/// screen, outside the detail pane.
pub proof fn law_scroll_within_limit(a: AppView, width: u16, height: u16)
    requires
        !a.show_detail,
    ensures
        table_laid_out(a, width, height).h_scroll <= table_laid_out(
            a,
            width,
            height,
        ).h_scroll_max,
{
}

/// The cells that columns take up side by side.
pub open spec fn row_width(cols: Seq<ColumnView>, used: int) -> int
    decreases cols.len(),
{
    if cols.len() == 0 {
        used
    } else {
        row_width(
            cols.drop_first(),
            used + columns::width_of(cols[0]) + if used > 0 {
                1int
            } else {
                0
            },
        )
    }
}

proof fn lemma_columns_fit(cols: Seq<ColumnView>, used: int, avail: int)
    requires
        used <= avail,
    ensures
        row_width(fitting_columns(cols, used, avail), used) <= avail,
        fitting_columns(cols, used, avail).is_prefix_of(cols),
    decreases cols.len(),
{
    if cols.len() > 0 {
        let w = columns::width_of(cols[0]) + if used > 0 {
            1int
        } else {
            0
        };
        if used + w <= avail {
            let rest = fitting_columns(cols.drop_first(), used + w, avail);
            lemma_columns_fit(cols.drop_first(), used + w, avail);
            let all = fitting_columns(cols, used, avail);
            assert(all.drop_first() =~= rest);
            assert(all =~= cols.subrange(0, all.len() as int));
        }
    }
}

/// The columns drawn are the first ones from where they are scrolled to, and
/// fit beside each other on the screen.
pub proof fn law_drawn_columns_fit(a: AppView, width: u16)
    requires
        !a.show_detail,
    ensures
        row_width(drawn_columns(a, width), 0) <= less_by(width, 4),
        drawn_columns(a, width).is_prefix_of(columns_from(a.columns, a.h_scroll as int)),
{
    lemma_columns_fit(columns_from(a.columns, a.h_scroll as int), 0, less_by(width, 4));
}

/// A popup lies within the screen.
pub proof fn law_popup_on_screen(area: Area, w: u16, h: u16)
    requires
        on_screen(area),
    ensures
        area.x + (area.width - popup_size(w, area.width)) / 2 + popup_size(w, area.width) <= area.x
            + area.width,
        area.y + (area.height - popup_size(h, area.height)) / 2 + popup_size(h, area.height)
            <= area.y + area.height,
{
}

/// Whether a span writes one number.
pub open spec fn writes(s: SpanView, v: NumberView) -> bool {
    &&& s.pieces.len() == 3
    &&& (s.pieces[1] matches spans::PieceView::Number { value, .. } && value == v)
}

/// Whether a span is one piece of text.
pub open spec fn says(s: SpanView, t: Seq<char>) -> bool {
    s.pieces.len() == 1 && s.pieces[0] == spans::PieceView::Text(t)
}

/// Each column shows its own figure of the row: what was sent under TX, what was
/// received under RX, and a further counter by its name.
pub proof fn law_columns_show_their_figures(t: RowView, name: Seq<char>, k: int)
    ensures
        says(cell_of(ColumnView::Device, t), t.dev_name),
        t.port_label is None ==> says(cell_of(ColumnView::Port, t), text::decimal(t.port as nat)),
        t.port_label matches Some(l) ==> says(cell_of(ColumnView::Port, t), l),
        writes(cell_of(ColumnView::TxGbps, t), NumberView::Gbps(t.tx_bytes)),
        writes(cell_of(ColumnView::RxGbps, t), NumberView::Gbps(t.rx_bytes)),
        writes(
            cell_of(ColumnView::TxBar, t),
            NumberView::Bar { rate: t.tx_bytes, link_mbps: t.link_mbps },
        ),
        writes(
            cell_of(ColumnView::RxBar, t),
            NumberView::Bar { rate: t.rx_bytes, link_mbps: t.link_mbps },
        ),
        writes(cell_of(ColumnView::TxPps, t), NumberView::Packets(t.tx_pkts)),
        writes(cell_of(ColumnView::RxPps, t), NumberView::Packets(t.rx_pkts)),
        writes(cell_of(ColumnView::Drops, t), NumberView::PerSec(t.rx_drops)),
        rolling::is_first_rate(t.counter_rates, k, name) ==> writes(
            cell_of(ColumnView::Counter(name), t),
            if t.counter_rates[k].is_bytes {
                NumberView::Bytes(t.counter_rates[k].rate)
            } else {
                NumberView::Events(t.counter_rates[k].rate)
            },
        ),
{
    rolling::law_rate_is_found_by_name(t.counter_rates, name, k);
    lemma_rate_of_counter(t.counter_rates, name);
}

proof fn lemma_rate_of_counter(rates: Seq<CounterRateView>, name: Seq<char>)
    ensures
        rolling::counter_named(rates, name) matches Some(c) ==> rows::rate_named(rates, name)
            == c.rate,
    decreases rates.len(),
{
    if rates.len() > 0 && rates[0].name != name {
        lemma_rate_of_counter(rates.drop_first(), name);
    }
}

/// The table has one row for each row that is shown and one field for each
/// column that is drawn, under that column's heading.
pub proof fn law_table_is_complete(
    cols: Seq<ColumnView>,
    rows: Seq<RowView>,
    r: int,
    c: int,
)
    requires
        0 <= r < rows.len(),
        0 <= c < cols.len(),
    ensures
        table_rows(cols, rows).len() == rows.len(),
        table_rows(cols, rows)[r].len() == cols.len(),
        table_rows(cols, rows)[r][c] == cell_of(cols[c], rows[r]),
        headings_of(cols).len() == cols.len(),
        headings_of(cols)[c] == (columns::header_of(cols[c]), columns::width_of(cols[c])),
{
}

/// The totals are over all rows that are shown, sent, received and dropped each
/// on its own.
pub proof fn law_totals_keep_direction(
    a: AppView,
    theme: Seq<char>,
    tx: Seq<MeanView>,
    rx: Seq<MeanView>,
    drops: Seq<MeanView>,
)
    requires
        tx.len() == a.cached_display.len(),
        rx.len() == a.cached_display.len(),
        drops.len() == a.cached_display.len(),
        forall|i: int| 0 <= i < tx.len() ==> #[trigger] tx[i] == a.cached_display[i].tx_bytes,
        forall|i: int| 0 <= i < rx.len() ==> #[trigger] rx[i] == a.cached_display[i].rx_bytes,
        forall|i: int|
            0 <= i < drops.len() ==> #[trigger] drops[i] == a.cached_display[i].rx_drops,
    ensures
        says(totals_line(a, theme)[1], " │ TX: "@),
        writes(totals_line(a, theme)[2], NumberView::TotalGbps(tx)),
        says(totals_line(a, theme)[3], " │ RX: "@),
        writes(totals_line(a, theme)[4], NumberView::TotalGbps(rx)),
        says(totals_line(a, theme)[5], " │ Drops: "@),
        writes(totals_line(a, theme)[6], NumberView::TotalPerSec(drops)),
        totals_line(a, theme)[6].tone == (if metrics::sum_above_zero(drops) {
            ToneView::Error
        } else {
            ToneView::Muted
        }),
{
    assert(tx_figures(a.cached_display) =~= tx);
    assert(rx_figures(a.cached_display) =~= rx);
    assert(drop_figures(a.cached_display) =~= drops);
}

/// The load line shows the busy share of the processor, the used share of the
/// memory, and the network: what came in under the arrow down, what went out
/// under the arrow up.
pub proof fn law_load_line_shows_its_sources(a: AppView)
    ensures
        says(load_line(a)[0], " CPU "@),
        writes(
            load_line(a)[2],
            NumberView::GaugeFill {
                part: a.sysinfo.cpu.busy as nat,
                whole: a.sysinfo.cpu.total as nat,
                width: 20,
            },
        ),
        writes(
            load_line(a)[3],
            NumberView::GaugeRest {
                part: a.sysinfo.cpu.busy as nat,
                whole: a.sysinfo.cpu.total as nat,
                width: 20,
            },
        ),
        writes(
            load_line(a)[4],
            NumberView::Percent {
                part: a.sysinfo.cpu.busy as nat,
                whole: a.sysinfo.cpu.total as nat,
            },
        ),
        says(load_line(a)[5], "  Mem "@),
        writes(
            load_line(a)[7],
            NumberView::GaugeFill {
                part: a.sysinfo.mem_used_mb as nat,
                whole: a.sysinfo.mem_total_mb as nat,
                width: 20,
            },
        ),
        writes(
            load_line(a)[8],
            NumberView::GaugeRest {
                part: a.sysinfo.mem_used_mb as nat,
                whole: a.sysinfo.mem_total_mb as nat,
                width: 20,
            },
        ),
        says(
            load_line(a)[9],
            spans::mem_label_text(a.sysinfo.mem_used_mb, a.sysinfo.mem_total_mb),
        ),
        load_line(a)[11].pieces[0] == spans::PieceView::Text("↓"@),
        load_line(a)[12].pieces[0] == spans::PieceView::Text("↑"@),
        a.net matches Some(n) ==> {
            &&& writes(
                load_line(a)[11],
                NumberView::ShortBytes {
                    bytes: app::net_totals(n.prev, n.curr).0,
                    elapsed_ns: n.elapsed_ns,
                },
            )
            &&& writes(
                load_line(a)[12],
                NumberView::ShortBytes {
                    bytes: app::net_totals(n.prev, n.curr).1,
                    elapsed_ns: n.elapsed_ns,
                },
            )
        },
        a.net is None ==> writes(
            load_line(a)[11],
            NumberView::ShortBytes { bytes: 0, elapsed_ns: 1_000_000_000 },
        ) && writes(
            load_line(a)[12],
            NumberView::ShortBytes { bytes: 0, elapsed_ns: 1_000_000_000 },
        ),
{
}

/// The detail pane shows what a row sent with the history of what it sent, and
/// what it received with the history of that.
pub proof fn law_detail_keeps_direction(t: RowView, h: HistoryView)
    ensures
        says(tx_line(t, Some(h))[0], " TX: "@),
        writes(tx_line(t, Some(h))[1], NumberView::Gbps(t.tx_bytes)),
        writes(tx_line(t, Some(h))[2], NumberView::Spark { rates: h.tx, width: 30 }),
        says(rx_line(t, Some(h))[0], " RX: "@),
        writes(rx_line(t, Some(h))[1], NumberView::Gbps(t.rx_bytes)),
        writes(rx_line(t, Some(h))[2], NumberView::Spark { rates: h.rx, width: 30 }),
        writes(tx_line(t, None)[1], NumberView::Gbps(t.tx_bytes)),
        writes(rx_line(t, None)[1], NumberView::Gbps(t.rx_bytes)),
{
}

/// A lane shows its number, state and version, its own rates where it has them,
/// else the GPU's, each way in its own place, and where it leads.
pub proof fn law_lane_keeps_direction(l: NvLinkRateView, t: RowView)
    ensures
        says(
            lane_line(l, t)[0],
            " "@ + text::padded_left(text::decimal(l.link.link_id as nat), ' ', 4),
        ),
        l.link.is_active ==> says(lane_line(l, t)[1], "  "@ + text::padded_right("enabled"@, 8)),
        !l.link.is_active ==> says(lane_line(l, t)[1], "  "@ + text::padded_right("disabled"@, 8)),
        l.link.version matches Some(v) ==> says(
            lane_line(l, t)[2],
            "  "@ + text::padded_left(text::decimal(v as nat), ' ', 3),
        ),
        l.tx_rate matches Some(r) ==> writes(lane_line(l, t)[3], NumberView::LinkMegabytes(r)),
        l.tx_rate is None ==> writes(lane_line(l, t)[3], NumberView::GpuMegabytes(t.tx_bytes)),
        l.rx_rate matches Some(r) ==> writes(lane_line(l, t)[4], NumberView::LinkMegabytes(r)),
        l.rx_rate is None ==> writes(lane_line(l, t)[4], NumberView::GpuMegabytes(t.rx_bytes)),
        l.link.remote_pci_bdf matches Some(b) ==> says(
            lane_line(l, t)[5],
            "  "@ + (l.link.remote_device_type.text() + " "@ + b),
        ),
{
}

/// An XGMI link shows its number, state and speed, its rates each way in its own
/// place, a dash where it has none, and the GPU it leads to.
pub proof fn law_xgmi_line_keeps_direction(l: XgmiLinkRateView)
    ensures
        says(
            xgmi_line(l)[0],
            " "@ + text::padded_left(text::decimal(l.link.link_id as nat), ' ', 4),
        ),
        l.link.is_active ==> says(xgmi_line(l)[1], "  "@ + text::padded_right("up"@, 6)),
        !l.link.is_active ==> says(xgmi_line(l)[1], "  "@ + text::padded_right("down"@, 6)),
        l.tx_rate matches Some(r) ==> writes(xgmi_line(l)[3], NumberView::LinkMegabytes(r)),
        l.tx_rate is None ==> says(xgmi_line(l)[3], "  "@ + text::padded_left("-"@, ' ', 7)),
        l.rx_rate matches Some(r) ==> writes(xgmi_line(l)[4], NumberView::LinkMegabytes(r)),
        l.rx_rate is None ==> says(xgmi_line(l)[4], "  "@ + text::padded_left("-"@, ' ', 7)),
        l.link.remote_pci_bdf matches Some(b) ==> says(xgmi_line(l)[5], "  "@ + ("GPU "@ + b)),
        l.link.remote_pci_bdf is None ==> says(xgmi_line(l)[5], "  "@ + "-"@),
{
}

/// The error counts of the lanes add up kind by kind, up to what a counter
/// holds.
pub proof fn law_lane_errors_add_up(
    a: Seq<NvLinkRateView>,
    b: Seq<NvLinkRateView>,
    l: NvLinkRateView,
)
    ensures
        lane_errors(a + b).0 == capped_sum(lane_errors(a).0, lane_errors(b).0),
        lane_errors(a + b).1 == capped_sum(lane_errors(a).1, lane_errors(b).1),
        lane_errors(a + b).2 == capped_sum(lane_errors(a).2, lane_errors(b).2),
        l.link.replay_error_count matches Some(v) ==> lane_errors(seq![l]).0 == v,
        l.link.replay_error_count is None ==> lane_errors(seq![l]).0 == 0,
        l.link.recovery_error_count matches Some(v) ==> lane_errors(seq![l]).1 == v,
        l.link.recovery_error_count is None ==> lane_errors(seq![l]).1 == 0,
        l.link.crc_error_count matches Some(v) ==> lane_errors(seq![l]).2 == v,
        l.link.crc_error_count is None ==> lane_errors(seq![l]).2 == 0,
        0 <= lane_errors(a).0 <= u64::MAX,
        0 <= lane_errors(a).1 <= u64::MAX,
        0 <= lane_errors(a).2 <= u64::MAX,
    decreases a.len() + b.len(),
{
    assert(seq![l].drop_last() =~= seq![]);
    assert(lane_errors(seq![]) == (0int, 0int, 0int));
    if a.len() > 0 {
        law_lane_errors_add_up(a.drop_last(), seq![], l);
    }
    if b.len() == 0 {
        assert(a + b =~= a);
    } else {
        law_lane_errors_add_up(a, b.drop_last(), l);
        law_lane_errors_add_up(b.drop_last(), seq![], l);
        assert((a + b).drop_last() =~= a + b.drop_last());
        assert((a + b).last() == b.last());
    }
}

/// The error lines show each count under its own name.
pub proof fn law_error_lines_name_their_counts(
    links: Seq<NvLinkRateView>,
    rates: Seq<CounterRateView>,
    ce: int,
    ue: int,
)
    ensures
        says(lane_error_line(links)[1], "replay="@ + text::decimal(lane_errors(links).0 as nat)),
        says(lane_error_line(links)[3], "recovery="@ + text::decimal(lane_errors(links).1 as nat)),
        says(lane_error_line(links)[5], "crc="@ + text::decimal(lane_errors(links).2 as nat)),
        rolling::is_first_rate(rates, ce, "xgmi_wafl_ce"@) ==> says(
            wafl_line(rates)[1],
            "wafl_ce="@ + text::decimal(rates[ce].value as nat),
        ),
        rolling::is_first_rate(rates, ue, "xgmi_wafl_ue"@) ==> says(
            wafl_line(rates)[3],
            "wafl_ue="@ + text::decimal(rates[ue].value as nat),
        ),
{
    rolling::law_rate_is_found_by_name(rates, "xgmi_wafl_ce"@, ce);
    rolling::law_rate_is_found_by_name(rates, "xgmi_wafl_ue"@, ue);
}

/// A counter line shows the counter's name, its rate in bytes or events, and its
/// advance.
pub proof fn law_counter_line_shows_its_counter(c: CounterRateView)
    ensures
        says(counter_line(c)[0], "  "@ + text::padded_right(c.name, 35)),
        c.is_bytes ==> writes(counter_line(c)[1], NumberView::Bytes(c.rate)),
        !c.is_bytes ==> writes(counter_line(c)[1], NumberView::Events(c.rate)),
        says(counter_line(c)[2], "  Δ "@ + text::decimal(c.delta as nat)),
        c.delta == 0 ==> counter_line(c)[1].tone == ToneView::Muted,
        c.delta > 0 && (text::has_infix(c.name, "err"@) || text::has_infix(c.name, "drop"@))
            ==> counter_line(c)[1].tone == ToneView::Error,
{
}

/// The counters that are listed are those that count something and those that
/// are always listed, in order and each with its own rank.
pub proof fn law_counters_are_listed(
    rates: Seq<CounterRateView>,
    ranks: Seq<usize>,
    c: CounterRateView,
    rank: usize,
)
    requires
        rates.len() == ranks.len(),
    ensures
        shown_counters(seq![], seq![]).len() == 0,
        c.value > 0 || columns::extra_names().contains(c.name) ==> shown_counters(
            rates.push(c),
            ranks.push(rank),
        ) == shown_counters(rates, ranks).push((rank as int, c)),
        c.value == 0 && !columns::extra_names().contains(c.name) ==> shown_counters(
            rates.push(c),
            ranks.push(rank),
        ) == shown_counters(rates, ranks),
{
    assert(rates.push(c).drop_last() =~= rates);
    assert(ranks.push(rank).drop_last() =~= ranks);
}

/// A process line shows each figure of the process in its own place.
pub proof fn law_process_line_shows_its_process(p: ProcessRdmaInfoView)
    ensures
        process_spans(p).len() == 11,
        says(process_spans(p)[0], "  "@ + text::padded_right(text::decimal(p.pid as nat), 7)),
        says(process_spans(p)[1], " "@ + text::padded_right(spans::truncated(p.user, 8), 8)),
        says(
            process_spans(p)[2],
            " "@ + text::padded_right(text::signed_decimal(p.nice as int), 2),
        ),
        says(process_spans(p)[3], " "@.push(p.state)),
        says(process_spans(p)[4], " "@ + text::padded_left(spans::mem_text(p.virt_kb), ' ', 8)),
        says(process_spans(p)[5], " "@ + text::padded_left(spans::mem_text(p.res_kb), ' ', 8)),
        says(process_spans(p)[6], " "@ + text::padded_left(spans::mem_text(p.shr_kb), ' ', 6)),
        writes(
            process_spans(p)[7],
            NumberView::Percent { part: p.res_kb as nat, whole: p.mem_total_kb as nat },
        ),
        says(
            process_spans(p)[8],
            " "@ + text::padded_left(text::decimal(p.qp_count as nat), ' ', 5),
        ),
        says(process_spans(p)[9], " "@ + text::padded_left(text::decimal(p.threads as nat), ' ', 4)),
        says(process_spans(p)[10], " "@ + spans::truncated(p.cmdline, 40)),
{
}

/// The detail pane is of the selected row's kind and shows the row's own
/// history, and for a port its own counters and the processes of its device.
pub proof fn law_detail_is_of_the_selected_row(a: AppView, t: RowView, ranks: Seq<usize>)
    ensures
        a.selected_row < a.cached_display.len() ==> selected_of(a) == Some(
            a.cached_display[a.selected_row as int],
        ),
        a.selected_row >= a.cached_display.len() ==> selected_of(a) is None,
        t.nvlink matches Some(m) ==> {
            let lines = detail_lines(a, t, ranks);
            &&& lines.len() == m.links.len() + 8
            &&& lines[1] == tx_line(t, app::history_at(a.history, t.dev_name))
            &&& lines[2] == rx_line(t, app::history_at(a.history, t.dev_name))
            &&& forall|i: int|
                0 <= i < m.links.len() ==> lane_line(#[trigger] m.links[i], t) == lines[i + 6]
            &&& lines.last() == lane_error_line(m.links)
        },
        t.nvlink is None ==> (t.xgmi matches Some(m) ==> {
            let lines = detail_lines(a, t, ranks);
            &&& lines.len() == m.links.len() + 7
            &&& lines[1] == tx_line(t, app::history_at(a.history, t.dev_name))
            &&& lines[2] == rx_line(t, app::history_at(a.history, t.dev_name))
            &&& forall|i: int|
                0 <= i < m.links.len() ==> xgmi_line(#[trigger] m.links[i]) == lines[i + 5]
            &&& lines.last() == wafl_line(t.counter_rates)
        }),
        t.nvlink is None && t.xgmi is None ==> {
            let lines = detail_lines(a, t, ranks);
            &&& lines[1] == tx_line(t, app::history_at(a.history, t.dev_name))
            &&& lines[2] == rx_line(t, app::history_at(a.history, t.dev_name))
            &&& lines.skip(4) == counter_part(t.counter_rates, ranks) + process_part(
                app::processes_of(a.processes, t.dev_name),
            )
        },
{
    if t.nvlink is None && t.xgmi is None {
        let lines = detail_lines(a, t, ranks);
        assert(lines.skip(4) =~= counter_part(t.counter_rates, ranks) + process_part(
            app::processes_of(a.processes, t.dev_name),
        ));
    }
}

/// Every process of a device has its line, in order, under one heading.
pub proof fn law_each_process_has_its_line(procs: Seq<ProcessRdmaInfoView>, i: int)
    requires
        0 <= i < procs.len(),
    ensures
        process_part(procs).len() == procs.len() + 1,
        process_part(procs)[i + 1] == process_spans(procs[i]),
{
}

/// The columns that are drawn are the first that fit, from where the table is
/// scrolled to; the next one would not fit.
pub proof fn law_columns_are_drawn_from_the_left(cols: Seq<ColumnView>, used: int, avail: int)
    ensures
        fitting_columns(cols, used, avail).len() <= cols.len(),
        fitting_columns(cols, used, avail) == cols.take(
            fitting_columns(cols, used, avail).len() as int,
        ),
        fitting_columns(cols, used, avail).len() < cols.len() ==> row_width(
            cols.take(fitting_columns(cols, used, avail).len() as int + 1),
            used,
        ) > avail,
    decreases cols.len(),
{
    if cols.len() > 0 {
        let w = columns::width_of(cols[0]) + if used > 0 {
            1int
        } else {
            0
        };
        let rest = cols.drop_first();
        let n = fitting_columns(rest, used + w, avail).len() as int;
        if used + w <= avail {
            law_columns_are_drawn_from_the_left(rest, used + w, avail);
            assert(seq![cols[0]] + rest.take(n) =~= cols.take(n + 1));
            if n < rest.len() {
                assert(cols.take(n + 2).drop_first() =~= rest.take(n + 1));
            }
        } else {
            assert(cols.take(0) =~= seq![]);
            assert(cols.take(1).drop_first() =~= seq![]);
            assert(row_width(cols.take(1).drop_first(), used + w) == used + w);
        }
    }
}

/// The detail pane scrolls just so far that its last line is on screen.
pub proof fn law_detail_scrolls_to_its_end(lines: nat, height: u16)
    requires
        lines <= u16::MAX,
        height >= 2,
    ensures
        lines <= height - 2 ==> scroll_room(lines, height) == 0,
        lines > height - 2 ==> scroll_room(lines, height) + height - 2 == lines,
{
}

/// The status bar shows how long a recording runs, in minutes and seconds, and
/// how many samples it holds; without one it shows what became of the last.
pub proof fn law_status_shows_the_recording(a: AppView, now: u64)
    ensures
        a.recorder matches Some(r) ==> (now >= r.start ==> says(
            status_spans(a, now)[1],
            " ● REC "@ + text::decimal(((now - r.start) / 1_000_000_000 / 60) as nat) + ":"@
                + text::padded_left(
                text::decimal(((now - r.start) / 1_000_000_000 % 60) as nat),
                '0',
                2,
            ) + " ("@ + text::decimal(r.samples.len()) + ") "@,
        )),
        a.recorder is None ==> (a.record_status matches Some(m) ==> says(
            status_spans(a, now)[1],
            " "@ + m + " "@,
        )),
        a.recorder is None && a.record_status is None ==> status_spans(a, now).len() == 2,
{
}

/// The picker lists every column, marks those that are shown and points at the
/// one under the cursor.
pub proof fn law_picker_marks_shown_columns(cols: Seq<ColumnView>, cursor: usize, i: int)
    requires
        0 <= i < columns::all_view().len(),
    ensures
        picker_lines(cols, cursor).len() == columns::all_view().len(),
        says(
            picker_lines(cols, cursor)[i][0],
            " "@ + (if i == cursor {
                "▶"@
            } else {
                " "@
            }) + " "@ + (if cols.contains(columns::all_view()[i]) {
                "[x]"@
            } else {
                "[ ]"@
            }) + " "@ + columns::label_of(columns::all_view()[i]),
        ),
{
}

/// What a value holds is what its fields hold, each under its own name.
pub proof fn law_views_hold_every_field(
    table_plan: TablePlan,
)
    ensures
        table_plan@.title == table_plan.title@,
        table_plan@.headings == lists::views(table_plan.headings@),
        table_plan@.rows == lists::views(table_plan.rows@),
        table_plan@.cursor == table_plan.cursor,
        table_plan@.v_scroll == table_plan.v_scroll,
        table_plan@.h_scroll == table_plan.h_scroll,
{
}

/// The table is titled after its tab, shows every row that is listed, points at
/// the selected one, and has scroll bars where not all of it is on screen.
pub proof fn law_table_shows_its_state(a: AppView, width: u16, height: u16)
    requires
        height >= 4,
        a.cached_display.len() <= usize::MAX,
        a.columns.len() <= usize::MAX,
    ensures
        !a.show_rolling_avg ==> table_view(a, width, height).title == " "@ + a.active_tab.text()
            + " Throughput "@,
        a.show_rolling_avg ==> table_view(a, width, height).title == " "@ + a.active_tab.text()
            + " Throughput (avg "@ + text::decimal(a.rolling_avg.window_secs as nat) + "s) "@,
        table_view(a, width, height).rows.len() == a.cached_display.len(),
        a.cached_display.len() == 0 ==> table_view(a, width, height).cursor is None,
        a.cached_display.len() > 0 ==> (table_view(a, width, height).cursor matches Some(c) && c.0
            == a.selected_row && c.1 == table_laid_out(a, width, height).table_offset),
        !a.show_detail && a.cached_display.len() > height - 4 ==> table_view(
            a,
            width,
            height,
        ).v_scroll == Some((a.cached_display.len() as usize, a.selected_row)),
        a.cached_display.len() <= height - 4 ==> table_view(a, width, height).v_scroll is None,
        a.show_detail ==> table_view(a, width, height).v_scroll is None && table_view(
            a,
            width,
            height,
        ).h_scroll is None,
{
}

/// The limit of scrolling sideways is the first column from which all the rest
/// fit.
pub proof fn law_scroll_limit_is_the_first_fit(cols: Seq<ColumnView>, avail: int)
    requires
        avail >= 0,
    ensures
        0 <= scroll_limit(cols, avail) <= cols.len(),
        total_width(cols.skip(scroll_limit(cols, avail))) <= avail,
        forall|k: int|
            0 <= k < scroll_limit(cols, avail) ==> total_width(#[trigger] cols.skip(k)) > avail,
    decreases cols.len(),
{
    if cols.len() == 0 || total_width(cols) <= avail {
        assert(cols.skip(0) =~= cols);
    } else {
        let rest = cols.drop_first();
        law_scroll_limit_is_the_first_fit(rest, avail);
        let n = scroll_limit(rest, avail);
        assert(cols.skip(n + 1) =~= rest.skip(n));
        assert forall|k: int| 0 <= k < n + 1 implies total_width(#[trigger] cols.skip(k))
            > avail by {
            if k == 0 {
                assert(cols.skip(0) =~= cols);
            } else {
                assert(cols.skip(k) =~= rest.skip(k - 1));
            }
        }
    }
}

/// The first line shows the host, how long it is up and its load.
pub proof fn law_host_line_shows_the_host(s: SysInfoView)
    ensures
        says(
            host_line(s)[1],
            "- "@ + s.hostname + " │ "@ + s.uptime + " │ load average: "@ + s.load_avg,
        ),
{
}

/// Texts are compared by their first difference, and a beginning comes before
/// what it begins.
pub proof fn law_texts_are_compared_by_first_difference(
    p: Seq<char>,
    a: Seq<char>,
    b: Seq<char>,
    x: char,
    y: char,
)
    ensures
        x < y ==> text_before(p + seq![x] + a, p + seq![y] + b),
        x < y ==> !text_before(p + seq![y] + b, p + seq![x] + a),
        text_before(p, p + seq![x] + a),
        !text_before(p + seq![x] + a, p),
        !text_before(p, p),
    decreases p.len(),
{
    let s = p + seq![x] + a;
    let t = p + seq![y] + b;
    if p.len() > 0 {
        let q = p.drop_first();
        law_texts_are_compared_by_first_difference(q, a, b, x, y);
        assert(s.drop_first() =~= q + seq![x] + a);
        assert(t.drop_first() =~= q + seq![y] + b);
    }
}

/// Counters are listed by rank, then the larger value first, then by name.
pub proof fn law_counters_are_ranked(a: (int, CounterRateView), b: (int, CounterRateView))
    ensures
        a.0 < b.0 ==> <RankedCounter as lists::Ordered>::less(a, b),
        a.0 > b.0 ==> !<RankedCounter as lists::Ordered>::less(a, b),
        a.0 == b.0 && a.1.value > b.1.value ==> <RankedCounter as lists::Ordered>::less(a, b),
        a.0 == b.0 && a.1.value < b.1.value ==> !<RankedCounter as lists::Ordered>::less(a, b),
        a.0 == b.0 && a.1.value == b.1.value ==> <RankedCounter as lists::Ordered>::less(a, b)
            == text_before(a.1.name, b.1.name),
{
}

/// The heads of the detail panes name the device, a port by its number too and a
/// GPU by its kind and its active links.
pub proof fn law_detail_heads_name_the_device(
    t: RowView,
    h: Option<HistoryView>,
    mark: Seq<char>,
    nv: NvLinkMetaView,
    amd: XgmiMetaView,
)
    ensures
        says(device_head(t, h, mark)[0][1], t.dev_name + "/"@ + text::decimal(t.port as nat)),
        says(device_head(t, h, mark)[0][2], mark),
        says(nvlink_pane(t, nv, h, mark)[0][1], t.dev_name),
        says(nvlink_pane(t, nv, h, mark)[0][2], "  [NVLink]  "@),
        says(
            nvlink_pane(t, nv, h, mark)[0][3],
            text::decimal(nv.active_links as nat) + "/"@ + text::decimal(nv.links.len())
                + " active"@,
        ),
        says(xgmi_pane(t, amd, h, mark)[0][1], t.dev_name),
        says(xgmi_pane(t, amd, h, mark)[0][2], "  [XGMI]  "@),
        says(
            xgmi_pane(t, amd, h, mark)[0][3],
            text::decimal(amd.active_links as nat) + "/"@ + text::decimal(amd.links.len())
                + " active"@,
        ),
{
}

/// A running process is shown as good, one that waits for a device as a warning,
/// one that is stopped or dead as an error.
pub proof fn law_process_state_is_coloured(p: ProcessRdmaInfoView)
    ensures
        p.state == 'R' ==> process_spans(p)[3].tone == ToneView::Good,
        p.state == 'S' || p.state == 'I' ==> process_spans(p)[3].tone == ToneView::Muted,
        p.state == 'D' ==> process_spans(p)[3].tone == ToneView::Warning,
        p.state == 'Z' || p.state == 'T' ==> process_spans(p)[3].tone == ToneView::Error,
{
}

/// A popup has the size it wishes for where that leaves a margin of two cells on
/// each side, and what the margin leaves otherwise.
pub proof fn law_popup_keeps_a_margin(wish: u16, screen: u16)
    ensures
        wish + 4 <= screen ==> popup_size(wish, screen) == wish,
        wish + 4 > screen >= 4 ==> popup_size(wish, screen) == screen - 4,
        screen < 4 ==> popup_size(wish, screen) == 0,
{
}

/// What is not known of a link is shown as a dash, its speed in whole gigabits,
/// and a remote end without an address by its kind.
pub proof fn law_unknowns_are_dashes(l: NvLinkRateView, x: XgmiLinkRateView, t: RowView)
    ensures
        l.link.version is None ==> says(
            lane_line(l, t)[2],
            "  "@ + text::padded_left("-"@, ' ', 3),
        ),
        l.link.remote_pci_bdf is None && l.link.remote_device_type == RemoteDeviceType::Unknown
            ==> says(lane_line(l, t)[5], "  "@ + "-"@),
        l.link.remote_pci_bdf is None && l.link.remote_device_type != RemoteDeviceType::Unknown
            ==> says(lane_line(l, t)[5], "  "@ + l.link.remote_device_type.text()),
        x.link.speed_mbps is None ==> says(
            xgmi_line(x)[2],
            "  "@ + text::padded_left("-"@, ' ', 4),
        ),
        x.link.speed_mbps matches Some(v) ==> says(
            xgmi_line(x)[2],
            "  "@ + text::padded_left(text::decimal(spans::half_even(v as nat, 1000)), ' ', 4),
        ),
        RemoteDeviceType::Gpu.text() == "GPU"@,
        RemoteDeviceType::IbmNpu.text() == "NPU"@,
        RemoteDeviceType::Switch.text() == "NVSwitch"@,
        RemoteDeviceType::Unknown.text() == "?"@,
{
}

/// Counters of trouble on the way are shown as a warning while they advance, and
/// others that advance as good.
pub proof fn law_counter_tone_warns(c: CounterRateView)
    requires
        c.delta > 0,
        !text::has_infix(c.name, "err"@) && !text::has_infix(c.name, "drop"@),
    ensures
        text::has_infix(c.name, "retrans"@) || text::has_infix(c.name, "unresponsive"@)
            || text::has_infix(c.name, "impaired"@) ==> counter_line(c)[1].tone
            == ToneView::Warning,
        !text::has_infix(c.name, "retrans"@) && !text::has_infix(c.name, "unresponsive"@)
            && !text::has_infix(c.name, "impaired"@) ==> counter_line(c)[1].tone == ToneView::Good,
{
}

/// Where averages are shown, the screen says over how many seconds and how many
/// samples there are for them.
pub proof fn law_averages_are_announced(a: AppView, t: RowView, theme: Seq<char>)
    ensures
        !a.show_rolling_avg ==> says(totals_line(a, theme)[8], ""@),
        a.show_rolling_avg ==> says(
            totals_line(a, theme)[8],
            " │ avg:"@ + text::decimal(a.rolling_avg.window_secs as nat) + "s("@ + text::decimal(
                rolling::most_samples(a.rolling_avg.samples, a.rolling_avg.window_secs) as nat,
            ) + "/"@ + text::decimal(a.rolling_avg.window_secs as nat) + ")"@,
        ),
        a.show_rolling_avg ==> average_mark(true, a.rolling_avg.window_secs) == "  [avg "@
            + text::decimal(a.rolling_avg.window_secs as nat) + "s]"@,
        average_mark(false, a.rolling_avg.window_secs) == ""@,
        !a.show_rolling_avg ==> detail_title(a, t) == " "@ + t.dev_name + " "@,
        a.show_rolling_avg ==> detail_title(a, t) == " "@ + t.dev_name + " (avg "@ + text::decimal(
            a.rolling_avg.window_secs as nat,
        ) + "s) "@,
{
}

/// The count of devices and the refresh interval stand on the line of totals.
pub proof fn law_totals_count_the_devices(a: AppView, theme: Seq<char>)
    ensures
        a.cached_display.len() == 1 ==> says(
            totals_line(a, theme)[0],
            " "@ + a.active_tab.text() + ": "@ + text::decimal(1) + " device"@ + ""@,
        ),
        a.cached_display.len() != 1 ==> says(
            totals_line(a, theme)[0],
            " "@ + a.active_tab.text() + ": "@ + text::decimal(a.cached_display.len())
                + " device"@ + "s"@,
        ),
        says(
            totals_line(a, theme)[7],
            " │ refresh: "@ + (text::decimal((a.refresh_interval_ns / 1_000_000_000) as nat) + "."@
                + text::decimal((a.refresh_interval_ns / 100_000_000 % 10) as nat))
                + "s │ theme: "@ + theme,
        ),
        columns::DeviceClass::Rdma.text() == "RDMA"@,
        columns::DeviceClass::Xgmi.text() == "XGMI"@,
        columns::DeviceClass::Nvlink.text() == "NVLink"@,
{
    assert(a.refresh_interval_ns / 100_000_000 / 10 == a.refresh_interval_ns / 1_000_000_000);
}

} // verus!
