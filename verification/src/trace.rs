//! RDMA recording: cumulative CSV counters from the command line and
//! per-interval Perfetto metrics from the TUI.

use vstd::prelude::*;

use crate::lists;
use crate::metrics::{Figure, FigureView, Mean, MeanView};
use crate::stat;
use crate::stat::{PortStat, PortStatView};
use crate::text;

verus! {

/// One device/port's metric values at a single sample instant. Transmitted and
/// received data are in bytes.
#[derive(Debug)]
pub struct PortMetrics {
    pub dev_name: String,
    pub port: u32,
    pub tx_bytes: Mean,
    pub rx_bytes: Mean,
    pub tx_pkts: Mean,
    pub rx_pkts: Mean,
    pub rx_drops: Mean,
}

/// What the metrics of a port hold.
#[verifier::ext_equal]
pub struct PortMetricsView {
    pub dev_name: Seq<char>,
    pub port: u32,
    pub tx_bytes: MeanView,
    pub rx_bytes: MeanView,
    pub tx_pkts: MeanView,
    pub rx_pkts: MeanView,
    pub rx_drops: MeanView,
}

impl View for PortMetrics {
    type V = PortMetricsView;

    open spec fn view(&self) -> PortMetricsView {
        PortMetricsView {
            dev_name: self.dev_name@,
            port: self.port,
            tx_bytes: self.tx_bytes@,
            rx_bytes: self.rx_bytes@,
            tx_pkts: self.tx_pkts@,
            rx_pkts: self.rx_pkts@,
            rx_drops: self.rx_drops@,
        }
    }
}

impl Clone for PortMetrics {
    fn clone(&self) -> (r: Self)
        ensures
            r@ == self@,
    {
        PortMetrics {
            dev_name: self.dev_name.clone(),
            port: self.port,
            tx_bytes: self.tx_bytes.clone(),
            rx_bytes: self.rx_bytes.clone(),
            tx_pkts: self.tx_pkts.clone(),
            rx_pkts: self.rx_pkts.clone(),
            rx_drops: self.rx_drops.clone(),
        }
    }
}

/// One interval snapshot: a timestamp plus every port's metrics.
#[derive(Debug)]
pub struct TraceSample {
    pub ts_us: u64,
    pub ports: Vec<PortMetrics>,
}

/// What a trace sample holds.
#[verifier::ext_equal]
pub struct TraceSampleView {
    pub ts_us: u64,
    pub ports: Seq<PortMetricsView>,
}

impl View for TraceSample {
    type V = TraceSampleView;

    open spec fn view(&self) -> TraceSampleView {
        TraceSampleView { ts_us: self.ts_us, ports: lists::views(self.ports@) }
    }
}

/// Accumulates samples in memory while recording. Times are in nanoseconds of
/// one monotonic clock.
#[derive(Debug)]
pub struct Recorder {
    start: u64,
    samples: Vec<TraceSample>,
}

/// What a recorder holds.
#[verifier::ext_equal]
pub struct RecorderView {
    pub start: u64,
    pub samples: Seq<TraceSampleView>,
}

impl View for Recorder {
    type V = RecorderView;

    closed spec fn view(&self) -> RecorderView {
        RecorderView { start: self.start, samples: lists::views(self.samples@) }
    }
}

/// The time between two moments; none when the later one comes first.
pub open spec fn span(later: u64, earlier: u64) -> u64 {
    if later >= earlier {
        (later - earlier) as u64
    } else {
        0
    }
}

impl Recorder {
    pub fn new(start: u64) -> (r: Self)
        ensures
            r@ == (RecorderView { start, samples: seq![] }),
    {
        let r = Recorder { start, samples: Vec::new() };
        assert(lists::views(r.samples@) =~= seq![]);
        r
    }

    /// Record one interval's metrics, timestamped relative to record start.
    /// A sample taken before recording started has the timestamp zero.
    pub fn push(&mut self, taken_at: u64, ports: Vec<PortMetrics>)
        ensures
            final(self)@ == (RecorderView {
                samples: old(self)@.samples.push(
                    TraceSampleView {
                        ts_us: span(taken_at, old(self)@.start) / 1000,
                        ports: lists::views(ports@),
                    },
                ),
                ..old(self)@
            }),
    {
        let ts_us: u64 = taken_at.saturating_sub(self.start) / 1000;
        let sample = TraceSample { ts_us, ports };
        proof {
            lists::lemma_views_push(self.samples@, sample);
        }
        self.samples.push(sample);
    }

    pub fn sample_count(&self) -> (r: usize)
        ensures
            r == self@.samples.len(),
    {
        self.samples.len()
    }

    pub fn elapsed_secs(&self, now: u64) -> (r: u64)
        ensures
            r == span(now, self@.start) / 1_000_000_000,
    {
        now.saturating_sub(self.start) / 1_000_000_000
    }

    pub fn is_empty(&self) -> (r: bool)
        ensures
            r == (self@.samples.len() == 0),
    {
        self.samples.len() == 0
    }

    /// The recorded samples as a Chrome JSON document.
    pub fn to_json(&self) -> (r: Vec<JsonPart>)
        ensures
            parts(r@) == chrome_json(self@.samples),
    {
        to_chrome_json(self.samples.as_slice())
    }
}

/// A piece of a JSON document: text, or a number that is still to be written.
#[derive(Debug)]
pub enum JsonPart {
    Text(String),
    Number(Figure),
}

/// What a piece of a JSON document holds.
pub enum PartView {
    Text(Seq<char>),
    Number(FigureView),
}

impl View for JsonPart {
    type V = PartView;

    open spec fn view(&self) -> PartView {
        match self {
            JsonPart::Text(s) => PartView::Text(s@),
            JsonPart::Number(n) => PartView::Number(n@),
        }
    }
}

/// The contents of a list of pieces.
pub open spec fn parts(v: Seq<JsonPart>) -> Seq<PartView> {
    lists::views(v)
}

/// A character as it stands in a JSON string.
pub open spec fn escaped_char(c: char) -> Seq<char> {
    if c == '"' {
        seq!['\\', '"']
    } else if c == '\\' {
        seq!['\\', '\\']
    } else if c == '\n' {
        seq!['\\', 'n']
    } else if c == '\r' {
        seq!['\\', 'r']
    } else if c == '\t' {
        seq!['\\', 't']
    } else if (c as u32) < 0x20 {
        seq!['\\', 'u'] + text::padded_left(text::hexadecimal(c as nat), '0', 4)
    } else {
        seq![c]
    }
}

/// Text as it stands in a JSON string.
pub open spec fn escaped(s: Seq<char>) -> Seq<char>
    decreases s.len(),
{
    if s.len() == 0 {
        seq![]
    } else {
        escaped(s.drop_last()) + escaped_char(s.last())
    }
}

fn push_escaped(out: &mut String, c: char)
    ensures
        final(out)@ == old(out)@ + escaped_char(c),
{
    let ghost start = out@;
    if c == '"' {
        out.push('\\');
        out.push('"');
    } else if c == '\\' {
        out.push('\\');
        out.push('\\');
    } else if c == '\n' {
        out.push('\\');
        out.push('n');
    } else if c == '\r' {
        out.push('\\');
        out.push('r');
    } else if c == '\t' {
        out.push('\\');
        out.push('t');
    } else {
        let n: u32 = c as u32;
        if n < 0x20 {
            out.push('\\');
            out.push('u');
            let digits = text::hexadecimal_u64(n as u64);
            out.append(text::pad_left(digits.as_str(), '0', 4).as_str());
        } else {
            out.push(c);
        }
    }
    assert(out@ =~= start + escaped_char(c));
}

/// Escape a string for embedding in a JSON string literal.
pub fn escape(s: &str) -> (r: String)
    ensures
        r@ == escaped(s@),
{
    let chars = text::chars_of(s);
    let mut out = String::new();
    let mut i: usize = 0;
    while i < chars.len()
        invariant
            i <= chars.len(),
            chars@ == s@,
            out@ == escaped(s@.take(i as int)),
        decreases chars.len() - i,
    {
        proof {
            text::lemma_take_step(s@, i as int);
        }
        push_escaped(&mut out, chars[i]);
        i += 1;
    }
    assert(s@.take(s@.len() as int) =~= s@);
    out
}

/// Where a device and port stand in a list.
pub open spec fn place_of(order: Seq<(Seq<char>, u32)>, dev: Seq<char>, port: u32) -> Option<int>
    decreases order.len(),
{
    if order.len() == 0 {
        None
    } else if order[0] == (dev, port) {
        Some(0int)
    } else {
        match place_of(order.drop_first(), dev, port) {
            Some(i) => Some(i + 1),
            None => None,
        }
    }
}

/// A list of devices and ports with one more, unless it is already there.
pub open spec fn with_port(order: Seq<(Seq<char>, u32)>, p: PortMetricsView) -> Seq<
    (Seq<char>, u32),
> {
    if place_of(order, p.dev_name, p.port) is Some {
        order
    } else {
        order.push((p.dev_name, p.port))
    }
}

/// A list of devices and ports with those of one sample.
pub open spec fn with_ports(order: Seq<(Seq<char>, u32)>, ports: Seq<PortMetricsView>) -> Seq<
    (Seq<char>, u32),
>
    decreases ports.len(),
{
    if ports.len() == 0 {
        order
    } else {
        with_port(with_ports(order, ports.drop_last()), ports.last())
    }
}

/// Every device and port of some samples, in the order of first appearance.
pub open spec fn order_of(samples: Seq<TraceSampleView>) -> Seq<(Seq<char>, u32)>
    decreases samples.len(),
{
    if samples.len() == 0 {
        seq![]
    } else {
        with_ports(order_of(samples.drop_last()), samples.last().ports)
    }
}

/// The contents of a list of devices and ports.
pub open spec fn port_keys(v: Seq<(String, u32)>) -> Seq<(Seq<char>, u32)> {
    Seq::new(v.len(), |i: int| (v[i].0@, v[i].1))
}

fn find_place(order: &[(String, u32)], dev: &str, port: u32) -> (r: Option<usize>)
    ensures
        match place_of(port_keys(order@), dev@, port) {
            Some(i) => r is Some && r->0 == i,
            None => r is None,
        },
{
    let ghost all = port_keys(order@);
    let mut i: usize = 0;
    assert(all.skip(0) =~= all);
    while i < order.len()
        invariant
            i <= order.len(),
            all == port_keys(order@),
            match place_of(all.skip(i as int), dev@, port) {
                Some(k) => place_of(all, dev@, port) == Some(k + i),
                None => place_of(all, dev@, port) is None,
            },
        decreases order.len() - i,
    {
        assert(all.skip(i as int)[0] == (order@[i as int].0@, order@[i as int].1));
        if text::same(order[i].0.as_str(), dev) && order[i].1 == port {
            return Some(i);
        }
        assert(all.skip(i as int).drop_first() =~= all.skip(i + 1));
        i += 1;
    }
    None
}

/// Collect every (dev, port) in first-seen order; the index is its Perfetto pid.
pub fn device_order(samples: &[TraceSample]) -> (r: Vec<(String, u32)>)
    ensures
        port_keys(r@) == order_of(lists::views(samples@)),
{
    let ghost all = lists::views(samples@);
    let mut order: Vec<(String, u32)> = Vec::new();
    let mut i: usize = 0;
    assert(port_keys(order@) =~= order_of(all.take(0)));
    while i < samples.len()
        invariant
            i <= samples.len(),
            all == lists::views(samples@),
            port_keys(order@) == order_of(all.take(i as int)),
        decreases samples.len() - i,
    {
        let s = &samples[i];
        proof {
            text::lemma_take_step(all, i as int);
            assert(all[i as int] == s@);
        }
        let ghost start = port_keys(order@);
        let ghost ports = s@.ports;
        let mut k: usize = 0;
        assert(ports.take(0) =~= seq![]);
        while k < s.ports.len()
            invariant
                k <= s.ports.len(),
                ports == lists::views(s.ports@),
                port_keys(order@) == with_ports(start, ports.take(k as int)),
            decreases s.ports.len() - k,
        {
            let p = &s.ports[k];
            proof {
                text::lemma_take_step(ports, k as int);
                assert(ports[k as int] == p@);
            }
            if find_place(order.as_slice(), p.dev_name.as_str(), p.port).is_none() {
                let ghost before = port_keys(order@);
                order.push((p.dev_name.clone(), p.port));
                assert(port_keys(order@) =~= before.push((p.dev_name@, p.port)));
            }
            k += 1;
        }
        assert(ports.take(ports.len() as int) =~= ports);
        i += 1;
    }
    assert(all.take(all.len() as int) =~= all);
    order
}

/// The process number of a device and port: its place, counted from one.
pub open spec fn pid_in(order: Seq<(Seq<char>, u32)>, dev: Seq<char>, port: u32) -> int {
    match place_of(order, dev, port) {
        Some(i) => i + 1,
        None => 1,
    }
}

proof fn lemma_place_bound(order: Seq<(Seq<char>, u32)>, dev: Seq<char>, port: u32)
    ensures
        match place_of(order, dev, port) {
            Some(i) => 0 <= i < order.len() && order[i] == (dev, port),
            None => true,
        },
    decreases order.len(),
{
    if order.len() > 0 && order[0] != (dev, port) {
        lemma_place_bound(order.drop_first(), dev, port);
    }
}

/// Looks up the process number of a device and port.
pub fn pid_of(order: &[(String, u32)], dev: &str, port: u32) -> (r: u64)
    ensures
        r == pid_in(port_keys(order@), dev@, port),
{
    proof {
        lemma_place_bound(port_keys(order@), dev@, port);
    }
    match find_place(order, dev, port) {
        Some(i) => {
            assert(i < order.len());
            i as u64 + 1
        },
        None => 1,
    }
}

/// The event that labels a process as "<device>:<port>".
pub open spec fn process_event(pid: int, dev: Seq<char>, port: u32) -> Seq<char> {
    "{\"name\":\"process_name\",\"ph\":\"M\",\"pid\":"@ + text::decimal(pid as nat)
        + ",\"args\":{\"name\":\""@ + escaped(dev) + ":"@ + text::decimal(port as nat) + "\"}}"@
}

/// The process_name metadata event labeling a pid as "<device>:<port>".
pub fn process_name_event(pid: u64, dev: &str, port: u32) -> (r: String)
    ensures
        r@ == process_event(pid as int, dev@, port),
{
    let mut out = "{\"name\":\"process_name\",\"ph\":\"M\",\"pid\":".to_owned();
    out.append(text::decimal_u64(pid).as_str());
    out.append(",\"args\":{\"name\":\"");
    out.append(escape(dev).as_str());
    out.append(":");
    out.append(text::decimal_u64(port as u64).as_str());
    out.append("\"}}");
    out
}

/// The text of a counter event before its value.
pub open spec fn counter_head(pid: int, ts_us: u64, name: Seq<char>) -> Seq<char> {
    "{\"name\":\""@ + name + "\",\"ph\":\"C\",\"pid\":"@ + text::decimal(pid as nat)
        + ",\"ts\":"@ + text::decimal(ts_us as nat) + ",\"args\":{\"value\":"@
}

/// A single-value counter event.
pub open spec fn counter_event(pid: int, ts_us: u64, name: Seq<char>, value: PartView) -> Seq<
    PartView,
> {
    seq![PartView::Text(counter_head(pid, ts_us, name)), value, PartView::Text("}}"@)]
}

/// The counter events of one port in one sample. Each direction is its own
/// track, so that it is drawn as an independent line rather than a stack.
pub open spec fn port_events(pid: int, ts_us: u64, p: PortMetricsView) -> Seq<PartView> {
    let comma = seq![PartView::Text(","@)];
    let tx_gbps = PartView::Number(FigureView::Gbps(p.tx_bytes));
    let rx_gbps = PartView::Number(FigureView::Gbps(p.rx_bytes));
    let tx_pps = PartView::Number(FigureView::PerSec(p.tx_pkts));
    let rx_pps = PartView::Number(FigureView::PerSec(p.rx_pkts));
    let drops = PartView::Number(FigureView::PerSec(p.rx_drops));
    counter_event(pid, ts_us, "tx_gbps"@, tx_gbps) + comma
        + counter_event(pid, ts_us, "rx_gbps"@, rx_gbps) + comma
        + counter_event(pid, ts_us, "tx_pps"@, tx_pps) + comma
        + counter_event(pid, ts_us, "rx_pps"@, rx_pps) + comma
        + counter_event(pid, ts_us, "rx_drops_per_sec"@, drops)
}

fn push_counter(out: &mut Vec<JsonPart>, pid: u64, ts_us: u64, name: &str, value: JsonPart)
    ensures
        parts(final(out)@) == parts(old(out)@) + counter_event(
            pid as int,
            ts_us,
            name@,
            value@,
        ),
{
    let ghost start = parts(out@);
    let mut head = "{\"name\":\"".to_owned();
    head.append(name);
    head.append("\",\"ph\":\"C\",\"pid\":");
    head.append(text::decimal_u64(pid).as_str());
    head.append(",\"ts\":");
    head.append(text::decimal_u64(ts_us).as_str());
    head.append(",\"args\":{\"value\":");
    assert(head@ =~= counter_head(pid as int, ts_us, name@));
    out.push(JsonPart::Text(head));
    out.push(value);
    out.push(JsonPart::Text("}}".to_owned()));
    assert(parts(out@) =~= start + counter_event(pid as int, ts_us, name@, value@));
}

fn push_comma(out: &mut Vec<JsonPart>)
    ensures
        parts(final(out)@) == parts(old(out)@) + seq![PartView::Text(","@)],
{
    let ghost start = parts(out@);
    out.push(JsonPart::Text(",".to_owned()));
    assert(parts(out@) =~= start + seq![PartView::Text(","@)]);
}

/// Appends the counter events of one port in one sample.
fn counter_events(out: &mut Vec<JsonPart>, pid: u64, ts_us: u64, p: &PortMetrics)
    ensures
        parts(final(out)@) == parts(old(out)@) + port_events(pid as int, ts_us, p@),
{
    let ghost start = parts(out@);
    let tx_gbps = JsonPart::Number(Figure::Gbps(p.tx_bytes.clone()));
    let rx_gbps = JsonPart::Number(Figure::Gbps(p.rx_bytes.clone()));
    let tx_pps = JsonPart::Number(Figure::PerSec(p.tx_pkts.clone()));
    let rx_pps = JsonPart::Number(Figure::PerSec(p.rx_pkts.clone()));
    let drops = JsonPart::Number(Figure::PerSec(p.rx_drops.clone()));
    push_counter(out, pid, ts_us, "tx_gbps", tx_gbps);
    push_comma(out);
    push_counter(out, pid, ts_us, "rx_gbps", rx_gbps);
    push_comma(out);
    push_counter(out, pid, ts_us, "tx_pps", tx_pps);
    push_comma(out);
    push_counter(out, pid, ts_us, "rx_pps", rx_pps);
    push_comma(out);
    push_counter(out, pid, ts_us, "rx_drops_per_sec", drops);
    assert(parts(out@) =~= start + port_events(pid as int, ts_us, p@));
}

/// The metadata events of some devices and ports, numbered from one, with a
/// comma after each but the last.
pub open spec fn metadata(order: Seq<(Seq<char>, u32)>) -> Seq<PartView>
    decreases order.len(),
{
    if order.len() == 0 {
        seq![]
    } else {
        let n = order.len() as int;
        metadata(order.drop_last()) + (if n > 1 {
            seq![PartView::Text(","@)]
        } else {
            seq![]
        }) + seq![PartView::Text(process_event(n, order.last().0, order.last().1))]
    }
}

/// The counter events of one sample, each with a comma before it.
pub open spec fn sample_events(
    order: Seq<(Seq<char>, u32)>,
    ts_us: u64,
    ports: Seq<PortMetricsView>,
) -> Seq<PartView>
    decreases ports.len(),
{
    if ports.len() == 0 {
        seq![]
    } else {
        let p = ports.last();
        sample_events(order, ts_us, ports.drop_last()) + seq![PartView::Text(","@)] + port_events(
            pid_in(order, p.dev_name, p.port),
            ts_us,
            p,
        )
    }
}

/// The counter events of some samples. Every port has a metadata event, so a
/// counter event always follows another event.
pub open spec fn all_events(order: Seq<(Seq<char>, u32)>, samples: Seq<TraceSampleView>) -> Seq<
    PartView,
>
    decreases samples.len(),
{
    if samples.len() == 0 {
        seq![]
    } else {
        all_events(order, samples.drop_last()) + sample_events(
            order,
            samples.last().ts_us,
            samples.last().ports,
        )
    }
}

/// The Chrome JSON document of some samples. Each device and port is a
/// process, and each metric and direction a counter track of its own.
pub open spec fn chrome_json(samples: Seq<TraceSampleView>) -> Seq<PartView> {
    seq![PartView::Text("{\"displayTimeUnit\":\"ns\",\"traceEvents\":["@)] + metadata(
        order_of(samples),
    ) + all_events(order_of(samples), samples) + seq![PartView::Text("]}"@)]
}

/// Serialize samples to Chrome JSON.
pub fn to_chrome_json(samples: &[TraceSample]) -> (r: Vec<JsonPart>)
    ensures
        parts(r@) == chrome_json(lists::views(samples@)),
{
    let ghost all = lists::views(samples@);
    let order = device_order(samples);
    let ghost keys = port_keys(order@);
    let ghost head = seq![PartView::Text("{\"displayTimeUnit\":\"ns\",\"traceEvents\":["@)];
    let mut out: Vec<JsonPart> = Vec::new();
    out.push(JsonPart::Text("{\"displayTimeUnit\":\"ns\",\"traceEvents\":[".to_owned()));
    let mut i: usize = 0;
    assert(parts(out@) =~= head + metadata(keys.take(0)));
    while i < order.len()
        invariant
            i <= order.len(),
            keys == port_keys(order@),
            parts(out@) == head + metadata(keys.take(i as int)),
        decreases order.len() - i,
    {
        proof {
            text::lemma_take_step(keys, i as int);
        }
        if i > 0 {
            push_comma(&mut out);
        }
        let event = process_name_event(i as u64 + 1, order[i].0.as_str(), order[i].1);
        assert(event@ == process_event(i + 1, keys[i as int].0, keys[i as int].1));
        let ghost held = parts(out@);
        out.push(JsonPart::Text(event));
        assert(parts(out@) =~= held.push(PartView::Text(event@)));
        i += 1;
        assert(parts(out@) =~= head + metadata(keys.take(i as int)));
    }
    assert(keys.take(keys.len() as int) =~= keys);
    let ghost labelled = head + metadata(keys);
    let mut k: usize = 0;
    assert(parts(out@) =~= labelled + all_events(keys, all.take(0)));
    while k < samples.len()
        invariant
            k <= samples.len(),
            keys == port_keys(order@),
            all == lists::views(samples@),
            parts(out@) == labelled + all_events(keys, all.take(k as int)),
        decreases samples.len() - k,
    {
        let s = &samples[k];
        proof {
            text::lemma_take_step(all, k as int);
            assert(all[k as int] == s@);
        }
        let ghost start = parts(out@);
        let ghost ports = s@.ports;
        let mut n: usize = 0;
        assert(parts(out@) =~= start + sample_events(keys, s.ts_us, ports.take(0)));
        while n < s.ports.len()
            invariant
                n <= s.ports.len(),
                keys == port_keys(order@),
                ports == lists::views(s.ports@),
                parts(out@) == start + sample_events(keys, s.ts_us, ports.take(n as int)),
            decreases s.ports.len() - n,
        {
            let p = &s.ports[n];
            proof {
                text::lemma_take_step(ports, n as int);
                assert(ports[n as int] == p@);
            }
            push_comma(&mut out);
            let pid: u64 = pid_of(order.as_slice(), p.dev_name.as_str(), p.port);
            counter_events(&mut out, pid, s.ts_us, p);
            n += 1;
            assert(parts(out@) =~= start + sample_events(keys, s.ts_us, ports.take(n as int)));
        }
        assert(ports.take(ports.len() as int) =~= ports);
        k += 1;
        assert(parts(out@) =~= labelled + all_events(keys, all.take(k as int)));
    }
    assert(all.take(all.len() as int) =~= all);
    out.push(JsonPart::Text("]}".to_owned()));
    assert(parts(out@) =~= chrome_json(all));
    out
}

/// The counters of a CSV row, in order.
pub open spec fn csv_names() -> Seq<Seq<char>> {
    seq![
        "tx_bytes"@,
        "rx_bytes"@,
        "tx_pkts"@,
        "rx_pkts"@,
        "rx_drops"@,
        "rdma_write_bytes"@,
        "rdma_write_recv_bytes"@,
        "rdma_write_wrs"@,
        "retrans_bytes"@,
        "retrans_pkts"@,
        "retrans_timeout_events"@,
    ]
}

/// The counters of a CSV row, in order.
pub fn csv_counters() -> (r: Vec<String>)
    ensures
        text::strings(r@) == csv_names(),
{
    let r = vec![
        "tx_bytes".to_owned(),
        "rx_bytes".to_owned(),
        "tx_pkts".to_owned(),
        "rx_pkts".to_owned(),
        "rx_drops".to_owned(),
        "rdma_write_bytes".to_owned(),
        "rdma_write_recv_bytes".to_owned(),
        "rdma_write_wrs".to_owned(),
        "retrans_bytes".to_owned(),
        "retrans_pkts".to_owned(),
        "retrans_timeout_events".to_owned(),
    ];
    assert(text::strings(r@) =~= csv_names());
    r
}

/// The heading line of a CSV recording.
pub open spec fn csv_heading() -> Seq<char> {
    "poll_start_ns,poll_end_ns,"@ + text::joined(csv_names(), ","@) + seq!['\n']
}

/// Writes the heading line of a CSV recording.
pub fn csv_header() -> (r: String)
    ensures
        r@ == csv_heading(),
{
    let mut out = "poll_start_ns,poll_end_ns,".to_owned();
    out.append(text::join(csv_counters().as_slice(), ",").as_str());
    out.push('\n');
    assert(out@ =~= csv_heading());
    out
}

/// The fields of some counters, each with a comma before it; a counter that
/// the port does not have is left empty.
pub open spec fn csv_fields(stat: PortStatView, names: Seq<Seq<char>>) -> Seq<char>
    decreases names.len(),
{
    if names.len() == 0 {
        seq![]
    } else {
        csv_fields(stat, names.drop_last()) + seq![','] + (match stat::value_named(
            stat.counters,
            names.last(),
        ) {
            Some(v) => text::decimal(v as nat),
            None => seq![],
        })
    }
}

/// One line of a CSV recording.
pub open spec fn csv_row(start: u64, end: u64, stat: PortStatView) -> Seq<char> {
    text::decimal(start as nat) + seq![','] + text::decimal(end as nat) + csv_fields(
        stat,
        csv_names(),
    ) + seq!['\n']
}

/// Appends one line to a CSV recording.
pub fn write_row(out: &mut String, start: u64, end: u64, stat: &PortStat)
    ensures
        final(out)@ == old(out)@ + csv_row(start, end, stat@),
{
    let ghost before = out@;
    out.append(text::decimal_u64(start).as_str());
    out.push(',');
    out.append(text::decimal_u64(end).as_str());
    let ghost head = out@;
    let names = csv_counters();
    let ghost all = csv_names();
    let mut i: usize = 0;
    assert(out@ =~= head + csv_fields(stat@, all.take(0)));
    while i < names.len()
        invariant
            i <= names.len(),
            text::strings(names@) == all,
            out@ == head + csv_fields(stat@, all.take(i as int)),
        decreases names.len() - i,
    {
        proof {
            text::lemma_take_step(all, i as int);
            assert(text::strings(names@)[i as int] == names@[i as int]@);
        }
        out.push(',');
        if let Some(value) = stat.counter_value(names[i].as_str()) {
            out.append(text::decimal_u64(value).as_str());
        }
        i += 1;
        assert(out@ =~= head + csv_fields(stat@, all.take(i as int)));
    }
    assert(all.take(all.len() as int) =~= all);
    out.push('\n');
    assert(out@ =~= before + csv_row(start, end, stat@));
}

pub const HELP: &'static str = "\
Usage: rdmatop
       rdmatop --format csv --output PATH --device NAME [--port N]
               [--interval MS] [--duration SECONDS]

Record cumulative RDMA counters without the TUI or GPU/process scans.
Command-line recording supports CSV. Press r in the TUI for a Perfetto trace.
Defaults: port 1, interval 1 ms, duration 10 seconds.
Fractional intervals are accepted: --interval 0.1 requests 0.1 ms.
Driver latency limits the achieved rate.
CSV poll_start_ns/poll_end_ns use CLOCK_MONOTONIC on this host.
The output file must not already exist. Run one recorder per port to
sample ports independently. Duration must be positive.
";

/// Why text is not a usable span of time.
#[derive(Clone, Copy, Debug, PartialEq, Eq, Structural)]
pub enum SpanFault {
    /// Not a positive finite number.
    Invalid,
    /// Longer than a span can be.
    OutOfRange,
    /// Shorter than a nanosecond.
    TooShort,
}

/// One word of a command line, with what it says as a number of milliseconds
/// and as a number of seconds, in nanoseconds.
#[derive(Debug)]
pub struct Word {
    pub text: String,
    pub as_millis: Result<u128, SpanFault>,
    pub as_secs: Result<u128, SpanFault>,
}

/// What a word holds.
pub struct WordView {
    pub text: Seq<char>,
    pub as_millis: Result<u128, SpanFault>,
    pub as_secs: Result<u128, SpanFault>,
}

impl View for Word {
    type V = WordView;

    open spec fn view(&self) -> WordView {
        WordView { text: self.text@, as_millis: self.as_millis, as_secs: self.as_secs }
    }
}

/// What to record, where and for how long.
#[derive(Debug)]
pub struct Options {
    pub path: String,
    pub device: String,
    pub port: u32,
    pub interval_ns: u128,
    pub duration_ns: u128,
}

/// What recording options hold.
pub struct OptionsView {
    pub path: Seq<char>,
    pub device: Seq<char>,
    pub port: u32,
    pub interval_ns: u128,
    pub duration_ns: u128,
}

impl View for Options {
    type V = OptionsView;

    open spec fn view(&self) -> OptionsView {
        OptionsView {
            path: self.path@,
            device: self.device@,
            port: self.port,
            interval_ns: self.interval_ns,
            duration_ns: self.duration_ns,
        }
    }
}

/// Why a command line is refused.
#[derive(Debug)]
pub enum OptionError {
    MissingValue(String),
    InvalidPort,
    InvalidDuration(String),
    DurationOutOfRange(String),
    DurationTooShort,
    UnknownOption(String),
    UnsupportedFormat(String),
    FormatRequired,
    PortNotPositive,
    OutputRequired,
    DeviceRequired,
}

/// What a refusal holds.
pub enum OptionErrorView {
    MissingValue(Seq<char>),
    InvalidPort,
    InvalidDuration(Seq<char>),
    DurationOutOfRange(Seq<char>),
    DurationTooShort,
    UnknownOption(Seq<char>),
    UnsupportedFormat(Seq<char>),
    FormatRequired,
    PortNotPositive,
    OutputRequired,
    DeviceRequired,
}

impl View for OptionError {
    type V = OptionErrorView;

    open spec fn view(&self) -> OptionErrorView {
        match self {
            OptionError::MissingValue(s) => OptionErrorView::MissingValue(s@),
            OptionError::InvalidPort => OptionErrorView::InvalidPort,
            OptionError::InvalidDuration(s) => OptionErrorView::InvalidDuration(s@),
            OptionError::DurationOutOfRange(s) => OptionErrorView::DurationOutOfRange(s@),
            OptionError::DurationTooShort => OptionErrorView::DurationTooShort,
            OptionError::UnknownOption(s) => OptionErrorView::UnknownOption(s@),
            OptionError::UnsupportedFormat(s) => OptionErrorView::UnsupportedFormat(s@),
            OptionError::FormatRequired => OptionErrorView::FormatRequired,
            OptionError::PortNotPositive => OptionErrorView::PortNotPositive,
            OptionError::OutputRequired => OptionErrorView::OutputRequired,
            OptionError::DeviceRequired => OptionErrorView::DeviceRequired,
        }
    }
}

/// The message of a refusal.
pub open spec fn message_of(e: OptionErrorView) -> Seq<char> {
    match e {
        OptionErrorView::MissingValue(s) => "missing value for "@ + s,
        OptionErrorView::InvalidPort => "invalid port"@,
        OptionErrorView::InvalidDuration(s) => "invalid duration: "@ + s,
        OptionErrorView::DurationOutOfRange(s) => "duration out of range: "@ + s,
        OptionErrorView::DurationTooShort => "duration must be at least 1 ns"@,
        OptionErrorView::UnknownOption(s) => "unknown option: "@ + s,
        OptionErrorView::UnsupportedFormat(s) => "unsupported format: "@ + s + " (expected csv)"@,
        OptionErrorView::FormatRequired => "--format is required"@,
        OptionErrorView::PortNotPositive => "port must be positive"@,
        OptionErrorView::OutputRequired => "--output is required"@,
        OptionErrorView::DeviceRequired => "--device is required"@,
    }
}

fn prefixed(head: &str, tail: &str) -> (r: String)
    ensures
        r@ == head@ + tail@,
{
    let mut out = head.to_owned();
    out.append(tail);
    out
}

impl OptionError {
    /// The message shown for a refusal.
    pub fn message(&self) -> (r: String)
        ensures
            r@ == message_of(self@),
    {
        match self {
            OptionError::MissingValue(s) => prefixed("missing value for ", s.as_str()),
            OptionError::InvalidPort => "invalid port".to_owned(),
            OptionError::InvalidDuration(s) => prefixed("invalid duration: ", s.as_str()),
            OptionError::DurationOutOfRange(s) => prefixed("duration out of range: ", s.as_str()),
            OptionError::DurationTooShort => "duration must be at least 1 ns".to_owned(),
            OptionError::UnknownOption(s) => prefixed("unknown option: ", s.as_str()),
            OptionError::UnsupportedFormat(s) => {
                let mut out = prefixed("unsupported format: ", s.as_str());
                out.append(" (expected csv)");
                out
            },
            OptionError::FormatRequired => "--format is required".to_owned(),
            OptionError::PortNotPositive => "port must be positive".to_owned(),
            OptionError::OutputRequired => "--output is required".to_owned(),
            OptionError::DeviceRequired => "--device is required".to_owned(),
        }
    }
}

/// What the words of a command line have set so far.
pub struct Settings {
    pub format: Option<String>,
    pub path: Option<String>,
    pub device: Option<String>,
    pub port: u32,
    pub interval_ns: u128,
    pub duration_ns: u128,
}

/// What settings hold.
pub struct SettingsView {
    pub format: Option<Seq<char>>,
    pub path: Option<Seq<char>>,
    pub device: Option<Seq<char>>,
    pub port: u32,
    pub interval_ns: u128,
    pub duration_ns: u128,
}

impl View for Settings {
    type V = SettingsView;

    open spec fn view(&self) -> SettingsView {
        SettingsView {
            format: lists::opt_text(self.format),
            path: lists::opt_text(self.path),
            device: lists::opt_text(self.device),
            port: self.port,
            interval_ns: self.interval_ns,
            duration_ns: self.duration_ns,
        }
    }
}

/// The settings before any word: port 1, every millisecond, for ten seconds.
pub open spec fn default_settings() -> SettingsView {
    SettingsView {
        format: None,
        path: None,
        device: None,
        port: 1,
        interval_ns: 1_000_000,
        duration_ns: 10_000_000_000,
    }
}

/// The refusal of a span of time.
pub open spec fn span_error(fault: SpanFault, value: Seq<char>) -> OptionErrorView {
    match fault {
        SpanFault::Invalid => OptionErrorView::InvalidDuration(value),
        SpanFault::OutOfRange => OptionErrorView::DurationOutOfRange(value),
        SpanFault::TooShort => OptionErrorView::DurationTooShort,
    }
}

/// The settings after one option and its value.
pub open spec fn with_option(s: SettingsView, flag: Seq<char>, value: WordView) -> Result<
    SettingsView,
    OptionErrorView,
> {
    if flag == "--format"@ {
        Ok(SettingsView { format: Some(value.text), ..s })
    } else if flag == "--output"@ {
        Ok(SettingsView { path: Some(value.text), ..s })
    } else if flag == "--device"@ {
        Ok(SettingsView { device: Some(value.text), ..s })
    } else if flag == "--port"@ {
        match text::unsigned_value(value.text, u32::MAX as nat) {
            Some(n) => Ok(SettingsView { port: n as u32, ..s }),
            None => Err(OptionErrorView::InvalidPort),
        }
    } else if flag == "--interval"@ {
        match value.as_millis {
            Ok(ns) => Ok(SettingsView { interval_ns: ns, ..s }),
            Err(fault) => Err(span_error(fault, value.text)),
        }
    } else if flag == "--duration"@ {
        match value.as_secs {
            Ok(ns) => Ok(SettingsView { duration_ns: ns, ..s }),
            Err(fault) => Err(span_error(fault, value.text)),
        }
    } else {
        Err(OptionErrorView::UnknownOption(flag))
    }
}

/// The settings after all options of a command line, which come in pairs of a
/// flag and a value. The first fault is reported.
pub open spec fn with_options(s: SettingsView, words: Seq<WordView>) -> Result<
    SettingsView,
    OptionErrorView,
>
    decreases words.len(),
{
    if words.len() == 0 {
        Ok(s)
    } else if words.len() == 1 {
        Err(OptionErrorView::MissingValue(words[0].text))
    } else {
        match with_option(s, words[0].text, words[1]) {
            Ok(next) => with_options(next, words.skip(2)),
            Err(e) => Err(e),
        }
    }
}

/// The options that settings give once all words are read. The format has to
/// be CSV, the port positive, and output and device named.
pub open spec fn options_of(s: SettingsView) -> Result<OptionsView, OptionErrorView> {
    match s.format {
        None => Err(OptionErrorView::FormatRequired),
        Some(f) => if f != "csv"@ {
            Err(OptionErrorView::UnsupportedFormat(f))
        } else if s.port == 0 {
            Err(OptionErrorView::PortNotPositive)
        } else if s.path is None || s.path->0.len() == 0 {
            Err(OptionErrorView::OutputRequired)
        } else if s.device is None || s.device->0.len() == 0 {
            Err(OptionErrorView::DeviceRequired)
        } else {
            Ok(
                OptionsView {
                    path: s.path->0,
                    device: s.device->0,
                    port: s.port,
                    interval_ns: s.interval_ns,
                    duration_ns: s.duration_ns,
                },
            )
        },
    }
}

/// The options of a command line.
pub open spec fn parsed(words: Seq<WordView>) -> Result<OptionsView, OptionErrorView> {
    match with_options(default_settings(), words) {
        Ok(s) => options_of(s),
        Err(e) => Err(e),
    }
}

fn refuse_span(fault: SpanFault, value: &String) -> (r: OptionError)
    ensures
        r@ == span_error(fault, value@),
{
    match fault {
        SpanFault::Invalid => OptionError::InvalidDuration(value.clone()),
        SpanFault::OutOfRange => OptionError::DurationOutOfRange(value.clone()),
        SpanFault::TooShort => OptionError::DurationTooShort,
    }
}

fn apply_option(s: Settings, flag: &String, value: &Word) -> (r: Result<Settings, OptionError>)
    ensures
        match r {
            Ok(next) => with_option(s@, flag@, value@) == Ok::<SettingsView, OptionErrorView>(next@),
            Err(e) => with_option(s@, flag@, value@) == Err::<SettingsView, OptionErrorView>(e@),
        },
{
    let mut next = s;
    let name = flag.as_str();
    if text::same(name, "--format") {
        next.format = Some(value.text.clone());
    } else if text::same(name, "--output") {
        next.path = Some(value.text.clone());
    } else if text::same(name, "--device") {
        next.device = Some(value.text.clone());
    } else if text::same(name, "--port") {
        match text::parse_unsigned(value.text.as_str(), u32::MAX as u64) {
            Some(n) => {
                next.port = n as u32;
            },
            None => {
                return Err(OptionError::InvalidPort);
            },
        }
    } else if text::same(name, "--interval") {
        match value.as_millis {
            Ok(ns) => {
                next.interval_ns = ns;
            },
            Err(fault) => {
                return Err(refuse_span(fault, &value.text));
            },
        }
    } else if text::same(name, "--duration") {
        match value.as_secs {
            Ok(ns) => {
                next.duration_ns = ns;
            },
            Err(fault) => {
                return Err(refuse_span(fault, &value.text));
            },
        }
    } else {
        return Err(OptionError::UnknownOption(flag.clone()));
    }
    Ok(next)
}

fn finish_options(s: Settings) -> (r: Result<Options, OptionError>)
    ensures
        match r {
            Ok(o) => options_of(s@) == Ok::<OptionsView, OptionErrorView>(o@),
            Err(e) => options_of(s@) == Err::<OptionsView, OptionErrorView>(e@),
        },
{
    match &s.format {
        None => {
            return Err(OptionError::FormatRequired);
        },
        Some(f) => {
            if !text::same(f.as_str(), "csv") {
                return Err(OptionError::UnsupportedFormat(f.clone()));
            }
        },
    }
    if s.port == 0 {
        return Err(OptionError::PortNotPositive);
    }
    let path: String = match &s.path {
        Some(p) => p.clone(),
        None => String::new(),
    };
    if path.as_str().unicode_len() == 0 {
        return Err(OptionError::OutputRequired);
    }
    let device: String = match &s.device {
        Some(d) => d.clone(),
        None => String::new(),
    };
    if device.as_str().unicode_len() == 0 {
        return Err(OptionError::DeviceRequired);
    }
    Ok(
        Options {
            path,
            device,
            port: s.port,
            interval_ns: s.interval_ns,
            duration_ns: s.duration_ns,
        },
    )
}

/// Reads the options of a command line.
pub fn parse(args: &[Word]) -> (r: Result<Options, OptionError>)
    ensures
        match r {
            Ok(o) => parsed(lists::views(args@)) == Ok::<OptionsView, OptionErrorView>(o@),
            Err(e) => parsed(lists::views(args@)) == Err::<OptionsView, OptionErrorView>(e@),
        },
{
    let ghost all = lists::views(args@);
    let mut s = Settings {
        format: None,
        path: None,
        device: None,
        port: 1,
        interval_ns: 1_000_000,
        duration_ns: 10_000_000_000,
    };
    let mut i: usize = 0;
    assert(all.skip(0) =~= all);
    while i < args.len()
        invariant
            i <= args.len(),
            all == lists::views(args@),
            with_options(default_settings(), all) == with_options(s@, all.skip(i as int)),
        decreases args.len() - i,
    {
        assert(all.skip(i as int)[0] == args@[i as int]@);
        if args.len() - i == 1 {
            return Err(OptionError::MissingValue(args[i].text.clone()));
        }
        assert(all.skip(i as int)[1] == args@[i + 1]@);
        assert(all.skip(i as int).skip(2) =~= all.skip(i + 2));
        match apply_option(s, &args[i].text, &args[i + 1]) {
            Ok(next) => {
                s = next;
            },
            Err(e) => {
                return Err(e);
            },
        }
        i += 2;
    }
    finish_options(s)
}

/// The time to wait after a poll. Missed deadlines are skipped: slow reads
/// must not trigger a burst of catch-up queries.
pub fn next_delay(interval_ns: u128, elapsed_ns: u128) -> (r: u128)
    ensures
        r == (if interval_ns >= elapsed_ns {
            interval_ns - elapsed_ns
        } else {
            0
        }),
{
    interval_ns.saturating_sub(elapsed_ns)
}

/// The state of a recording: how many polls it made, how long they took and
/// how many were longer than the interval.
#[derive(Clone, Copy, Debug, PartialEq, Eq, Structural)]
pub struct RecordingRun {
    pub interval_ns: u128,
    pub duration_ns: u128,
    pub samples: u64,
    pub read_ns: u128,
    pub overruns: u64,
}

/// What a recording does after a poll.
#[derive(Clone, Copy, Debug, PartialEq, Eq, Structural)]
pub enum RecordingStep {
    Finish,
    /// Wait before the next poll; not at all when the time is zero.
    Wait { ns: u128 },
}

/// The recording after a poll.
pub open spec fn polled(
    run: RecordingRun,
    start_ns: u64,
    end_ns: u64,
    took_ns: u128,
) -> RecordingRun {
    RecordingRun {
        samples: (run.samples + 1) as u64,
        read_ns: (run.read_ns + (end_ns - start_ns)) as u128,
        overruns: if took_ns > run.interval_ns {
            (run.overruns + 1) as u64
        } else {
            run.overruns
        },
        ..run
    }
}

/// What follows a poll that took a time, at a moment of the recording: the end
/// once the duration is reached, or a wait that never reaches past it.
pub open spec fn step_of(run: RecordingRun, took_ns: u128, elapsed_ns: u128) -> RecordingStep {
    if elapsed_ns >= run.duration_ns {
        RecordingStep::Finish
    } else {
        let due = if run.interval_ns >= took_ns {
            (run.interval_ns - took_ns) as u128
        } else {
            0
        };
        let left = (run.duration_ns - elapsed_ns) as u128;
        RecordingStep::Wait {
            ns: if due < left {
                due
            } else {
                left
            },
        }
    }
}

impl RecordingRun {
    pub fn new(options: &Options) -> (r: Self)
        ensures
            r == (RecordingRun {
                interval_ns: options.interval_ns,
                duration_ns: options.duration_ns,
                samples: 0,
                read_ns: 0,
                overruns: 0,
            }),
    {
        RecordingRun {
            interval_ns: options.interval_ns,
            duration_ns: options.duration_ns,
            samples: 0,
            read_ns: 0,
            overruns: 0,
        }
    }

    /// Whether to poll at a moment of the recording. The first poll is always
    /// made.
    pub fn polls(&self, elapsed_ns: u128) -> (r: bool)
        ensures
            r == (self.samples == 0 || elapsed_ns < self.duration_ns),
    {
        self.samples == 0 || elapsed_ns < self.duration_ns
    }

    /// Counts a poll between two readings of the clock.
    pub fn record(&mut self, start_ns: u64, end_ns: u64, took_ns: u128)
        requires
            start_ns <= end_ns,
            old(self).samples < u64::MAX,
            old(self).overruns <= old(self).samples,
            old(self).read_ns <= old(self).samples * 0xffff_ffff_ffff_ffff,
        ensures
            *final(self) == polled(*old(self), start_ns, end_ns, took_ns),
            final(self).overruns <= final(self).samples,
            final(self).read_ns <= final(self).samples * 0xffff_ffff_ffff_ffff,
    {
        proof {
            assert(self.samples * 0xffff_ffff_ffff_ffff + 0xffff_ffff_ffff_ffff == (self.samples
                + 1) * 0xffff_ffff_ffff_ffff);
            assert((self.samples + 1) * 0xffff_ffff_ffff_ffff <= 0xffff_ffff_ffff_ffff
                * 0xffff_ffff_ffff_ffff);
        }
        self.read_ns = self.read_ns + (end_ns - start_ns) as u128;
        self.samples = self.samples + 1;
        if took_ns > self.interval_ns {
            self.overruns = self.overruns + 1;
        }
    }

    /// What follows a poll.
    pub fn after_poll(&self, took_ns: u128, elapsed_ns: u128) -> (r: RecordingStep)
        ensures
            r == step_of(*self, took_ns, elapsed_ns),
    {
        if elapsed_ns >= self.duration_ns {
            return RecordingStep::Finish;
        }
        let due: u128 = next_delay(self.interval_ns, took_ns);
        let left: u128 = self.duration_ns.saturating_sub(elapsed_ns);
        RecordingStep::Wait {
            ns: if due < left {
                due
            } else {
                left
            },
        }
    }
}

/// A wait never reaches past the end of the recording, and is never longer
/// than the interval.
pub proof fn law_wait_ends_in_time(run: RecordingRun, took_ns: u128, elapsed_ns: u128)
    ensures
        match step_of(run, took_ns, elapsed_ns) {
            RecordingStep::Finish => elapsed_ns >= run.duration_ns,
            RecordingStep::Wait { ns } => elapsed_ns + ns <= run.duration_ns && ns
                <= run.interval_ns,
        },
{
}

/// Options that are accepted name an output and a device and a positive port.
pub proof fn law_accepted_options_complete(words: Seq<WordView>)
    ensures
        match parsed(words) {
            Ok(o) => o.path.len() > 0 && o.device.len() > 0 && o.port > 0,
            Err(_) => true,
        },
{
}

/// Escaped text holds no control character.
pub proof fn law_escaped_has_no_control(s: Seq<char>)
    ensures
        forall|i: int| 0 <= i < escaped(s).len() ==> (#[trigger] escaped(s)[i]) as u32 >= 0x20,
    decreases s.len(),
{
    if s.len() > 0 {
        law_escaped_has_no_control(s.drop_last());
        let before = escaped(s.drop_last());
        let last = escaped_char(s.last());
        lemma_escaped_char_printable(s.last());
        assert forall|i: int| 0 <= i < escaped(s).len() implies (#[trigger] escaped(s)[i]) as u32
            >= 0x20 by {
            if i < before.len() {
                assert(escaped(s)[i] == before[i]);
            } else {
                assert(escaped(s)[i] == last[i - before.len()]);
            }
        }
    }
}

proof fn lemma_escaped_char_printable(c: char)
    ensures
        forall|i: int|
            0 <= i < escaped_char(c).len() ==> (#[trigger] escaped_char(c)[i]) as u32 >= 0x20,
{
    if (c as u32) < 0x20 {
        reveal_with_fuel(text::hexadecimal, 3);
    }
}

/// The value of a lower-case hexadecimal digit.
pub open spec fn hex_value(c: char) -> int {
    if c <= '9' {
        c as int - 48
    } else {
        c as int - 87
    }
}

/// The text that the inside of a JSON string stands for.
pub open spec fn unescaped(t: Seq<char>) -> Seq<char>
    decreases t.len(),
{
    if t.len() == 0 {
        seq![]
    } else if t[0] != '\\' || t.len() == 1 {
        seq![t[0]] + unescaped(t.skip(1))
    } else if t[1] == 'n' {
        seq!['\n'] + unescaped(t.skip(2))
    } else if t[1] == 'r' {
        seq!['\r'] + unescaped(t.skip(2))
    } else if t[1] == 't' {
        seq!['\t'] + unescaped(t.skip(2))
    } else if t[1] == 'u' && t.len() >= 6 {
        let code = ((hex_value(t[2]) * 16 + hex_value(t[3])) * 16 + hex_value(t[4])) * 16
            + hex_value(t[5]);
        seq![code as char] + unescaped(t.skip(6))
    } else {
        seq![t[1]] + unescaped(t.skip(2))
    }
}

proof fn lemma_escaped_front(s: Seq<char>)
    requires
        s.len() > 0,
    ensures
        escaped(s) == escaped_char(s[0]) + escaped(s.skip(1)),
    decreases s.len(),
{
    if s.len() == 1 {
        assert(s.drop_last() =~= seq![]);
        assert(s.skip(1) =~= seq![]);
        assert(escaped(s) =~= escaped_char(s[0]) + escaped(s.skip(1)));
    } else {
        lemma_escaped_front(s.drop_last());
        assert(s.drop_last().skip(1) =~= s.skip(1).drop_last());
        assert(escaped(s) =~= escaped_char(s[0]) + escaped(s.skip(1)));
    }
}

proof fn lemma_unescaped_front(c: char, rest: Seq<char>)
    ensures
        unescaped(escaped_char(c) + rest) == seq![c] + unescaped(rest),
{
    let t = escaped_char(c) + rest;
    if c == '"' || c == '\\' || c == '\n' || c == '\r' || c == '\t' {
        assert(t.skip(2) =~= rest);
    } else if (c as u32) < 0x20 {
        let n = c as nat;
        reveal_with_fuel(text::hexadecimal, 3);
        assert(text::padded_left(text::hexadecimal(n), '0', 4) =~= seq![
            '0',
            '0',
            text::hex_digit(n / 16),
            text::hex_digit(n % 16),
        ]);
        assert(t.skip(6) =~= rest);
        assert(t[2] == '0' && t[3] == '0');
        assert(t[4] == text::hex_digit(n / 16) && t[5] == text::hex_digit(n % 16));
        assert(hex_value(t[2]) == 0 && hex_value(t[3]) == 0);
        assert(hex_value(t[4]) == n / 16 && hex_value(t[5]) == n % 16);
    } else {
        assert(t.skip(1) =~= rest);
    }
}

/// Text escaped for a JSON string is read back as the same text.
pub proof fn law_escaped_text_is_read_back(s: Seq<char>)
    ensures
        unescaped(escaped(s)) == s,
    decreases s.len(),
{
    if s.len() > 0 {
        lemma_escaped_front(s);
        law_escaped_text_is_read_back(s.skip(1));
        lemma_unescaped_front(s[0], escaped(s.skip(1)));
        assert(seq![s[0]] + s.skip(1) =~= s);
    }
}

/// The times in a trace count from the start of the recording and follow the
/// order of the readings; a reading taken before the start has the time zero.
pub proof fn law_trace_times_follow_readings(start: u64, a: u64, b: u64)
    requires
        a <= b,
    ensures
        span(a, start) / 1000 <= span(b, start) / 1000,
        b <= start ==> span(b, start) / 1000 == 0,
        start <= b ==> b - start - 1000 < span(b, start) / 1000 * 1000 <= b - start,
{
}

/// A place in a list stays when the list grows, and the new entry has one.
proof fn lemma_place_push(
    order: Seq<(Seq<char>, u32)>,
    added: (Seq<char>, u32),
    dev: Seq<char>,
    port: u32,
)
    ensures
        place_of(order, dev, port) is Some ==> place_of(order.push(added), dev, port) is Some,
        place_of(order.push(added), added.0, added.1) is Some,
    decreases order.len(),
{
    let more = order.push(added);
    if order.len() > 0 {
        assert(more.drop_first() =~= order.drop_first().push(added));
        assert(more[0] == order[0]);
        lemma_place_push(order.drop_first(), added, dev, port);
    } else {
        assert(more[0] == added);
    }
}

proof fn lemma_with_ports_keeps(
    order: Seq<(Seq<char>, u32)>,
    ports: Seq<PortMetricsView>,
    dev: Seq<char>,
    port: u32,
)
    requires
        place_of(order, dev, port) is Some,
    ensures
        place_of(with_ports(order, ports), dev, port) is Some,
    decreases ports.len(),
{
    if ports.len() > 0 {
        lemma_with_ports_keeps(order, ports.drop_last(), dev, port);
        let held = with_ports(order, ports.drop_last());
        let p = ports.last();
        lemma_place_push(held, (p.dev_name, p.port), dev, port);
    }
}

proof fn lemma_with_ports_has(
    order: Seq<(Seq<char>, u32)>,
    ports: Seq<PortMetricsView>,
    k: int,
)
    requires
        0 <= k < ports.len(),
    ensures
        place_of(with_ports(order, ports), ports[k].dev_name, ports[k].port) is Some,
    decreases ports.len(),
{
    let held = with_ports(order, ports.drop_last());
    let p = ports.last();
    if k < ports.len() - 1 {
        lemma_with_ports_has(order, ports.drop_last(), k);
        lemma_place_push(held, (p.dev_name, p.port), ports[k].dev_name, ports[k].port);
    } else {
        lemma_place_push(held, (p.dev_name, p.port), p.dev_name, p.port);
    }
}

proof fn lemma_order_has(samples: Seq<TraceSampleView>, i: int, k: int)
    requires
        0 <= i < samples.len(),
        0 <= k < samples[i].ports.len(),
    ensures
        place_of(
            order_of(samples),
            samples[i].ports[k].dev_name,
            samples[i].ports[k].port,
        ) is Some,
    decreases samples.len(),
{
    let p = samples[i].ports[k];
    let held = order_of(samples.drop_last());
    if i < samples.len() - 1 {
        lemma_order_has(samples.drop_last(), i, k);
        lemma_with_ports_keeps(held, samples.last().ports, p.dev_name, p.port);
    } else {
        lemma_with_ports_has(held, samples.last().ports, k);
    }
}

/// Each device and port of a trace is a process of its own: its process number
/// is that of the metadata event which names it, and two readings have the same
/// number exactly when they are of the same device and port.
pub proof fn law_each_port_is_its_own_process(
    samples: Seq<TraceSampleView>,
    i: int,
    k: int,
    j: int,
    l: int,
)
    requires
        0 <= i < samples.len(),
        0 <= k < samples[i].ports.len(),
        0 <= j < samples.len(),
        0 <= l < samples[j].ports.len(),
    ensures
        ({
            let order = order_of(samples);
            let p = samples[i].ports[k];
            let q = samples[j].ports[l];
            let pid = pid_in(order, p.dev_name, p.port);
            &&& 1 <= pid <= order.len()
            &&& order[pid - 1] == (p.dev_name, p.port)
            &&& pid == pid_in(order, q.dev_name, q.port) <==> (p.dev_name == q.dev_name && p.port
                == q.port)
        }),
{
    let order = order_of(samples);
    let p = samples[i].ports[k];
    let q = samples[j].ports[l];
    lemma_order_has(samples, i, k);
    lemma_order_has(samples, j, l);
    lemma_place_bound(order, p.dev_name, p.port);
    lemma_place_bound(order, q.dev_name, q.port);
}

/// The fields of a CSV row: when the poll began and ended, and the counters,
/// empty where the port has none.
pub open spec fn row_fields(start: u64, end: u64, stat: PortStatView) -> Seq<Seq<char>> {
    seq![text::decimal(start as nat), text::decimal(end as nat)] + counter_fields(
        stat,
        csv_names(),
    )
}

/// The fields of some counters.
pub open spec fn counter_fields(stat: PortStatView, names: Seq<Seq<char>>) -> Seq<Seq<char>> {
    Seq::new(
        names.len(),
        |i: int|
            match stat::value_named(stat.counters, names[i]) {
                Some(v) => text::decimal(v as nat),
                None => seq![],
            },
    )
}

proof fn lemma_fields_joined(head: Seq<Seq<char>>, stat: PortStatView, names: Seq<Seq<char>>)
    requires
        head.len() >= 1,
    ensures
        text::joined(head + counter_fields(stat, names), seq![',']) == text::joined(
            head,
            seq![','],
        ) + csv_fields(stat, names),
    decreases names.len(),
{
    let all = head + counter_fields(stat, names);
    if names.len() == 0 {
        assert(all =~= head);
        assert(text::joined(head, seq![',']) + csv_fields(stat, names) =~= text::joined(
            head,
            seq![','],
        ));
    } else {
        lemma_fields_joined(head, stat, names.drop_last());
        assert(all.drop_last() =~= head + counter_fields(stat, names.drop_last()));
        assert(all.last() == counter_fields(stat, names).last());
        assert(text::joined(all, seq![',']) =~= text::joined(head, seq![',']) + csv_fields(
            stat,
            names,
        ));
    }
}

proof fn lemma_decimal_has_no_comma(n: nat)
    ensures
        !text::decimal(n).contains(','),
{
    text::lemma_decimal_chars(n);
}

/// A CSV row ends in a line feed, and splitting the rest at the commas gives
/// back the two instants and every counter.
pub proof fn law_row_splits_into_its_fields(start: u64, end: u64, stat: PortStatView)
    ensures
        csv_row(start, end, stat).last() == '\n',
        text::pieces(csv_row(start, end, stat).drop_last(), Some(',')) == row_fields(
            start,
            end,
            stat,
        ),
{
    let head = seq![text::decimal(start as nat), text::decimal(end as nat)];
    let fields = row_fields(start, end, stat);
    assert(head.drop_last() =~= seq![text::decimal(start as nat)]);
    assert(text::joined(head.drop_last(), seq![',']) == text::decimal(start as nat));
    lemma_fields_joined(head, stat, csv_names());
    assert(csv_row(start, end, stat).drop_last() =~= text::joined(fields, seq![',']));
    assert forall|i: int| 0 <= i < fields.len() implies !(#[trigger] fields[i]).contains(',') by {
        lemma_decimal_has_no_comma(start as nat);
        lemma_decimal_has_no_comma(end as nat);
        if i >= 2 {
            assert(fields[i] == counter_fields(stat, csv_names())[i - 2]);
            match stat::value_named(stat.counters, csv_names()[i - 2]) {
                Some(v) => {
                    lemma_decimal_has_no_comma(v as nat);
                },
                None => {},
            }
        }
    }
    text::law_split_undoes_join(fields, ',');
}

/// The names of the fields of a CSV row.
pub open spec fn field_names() -> Seq<Seq<char>> {
    seq!["poll_start_ns"@, "poll_end_ns"@] + csv_names()
}

proof fn lemma_names_have_no_comma(i: int)
    requires
        0 <= i < field_names().len(),
    ensures
        !field_names()[i].contains(','),
{
    reveal_strlit("poll_start_ns");
    reveal_strlit("poll_end_ns");
    reveal_strlit("tx_bytes");
    reveal_strlit("rx_bytes");
    reveal_strlit("tx_pkts");
    reveal_strlit("rx_pkts");
    reveal_strlit("rx_drops");
    reveal_strlit("rdma_write_bytes");
    reveal_strlit("rdma_write_recv_bytes");
    reveal_strlit("rdma_write_wrs");
    reveal_strlit("retrans_bytes");
    reveal_strlit("retrans_pkts");
    reveal_strlit("retrans_timeout_events");
}

/// Splitting the heading line at the commas gives a name for each field of a
/// row.
pub proof fn law_heading_names_every_field(start: u64, end: u64, stat: PortStatView)
    ensures
        csv_heading().last() == '\n',
        text::pieces(csv_heading().drop_last(), Some(',')) == field_names(),
        field_names().len() == row_fields(start, end, stat).len(),
{
    let head = seq!["poll_start_ns"@, "poll_end_ns"@];
    assert("poll_start_ns,poll_end_ns,"@ =~= "poll_start_ns"@ + seq![','] + "poll_end_ns"@ + seq![
        ',',
    ]) by {
        reveal_strlit("poll_start_ns,poll_end_ns,");
        reveal_strlit("poll_start_ns");
        reveal_strlit("poll_end_ns");
    }
    assert(","@ =~= seq![',']) by {
        reveal_strlit(",");
    }
    assert(head.drop_last() =~= seq!["poll_start_ns"@]);
    assert(text::joined(head.drop_last(), seq![',']) == "poll_start_ns"@);
    text::lemma_joined_after(head, csv_names(), seq![',']);
    assert(csv_heading().drop_last() =~= text::joined(field_names(), seq![',']));
    assert forall|i: int| 0 <= i < field_names().len() implies !(
    #[trigger] field_names()[i]).contains(',') by {
        lemma_names_have_no_comma(i);
    }
    text::law_split_undoes_join(field_names(), ',');
}

/// The five counters of a port in a trace carry the figures they are named
/// after, each of its own and of no other, under the port's process and at the
/// sample's time.
pub proof fn law_trace_counters_carry_their_figures(pid: int, ts_us: u64, p: PortMetricsView)
    ensures
        port_events(pid, ts_us, p).len() == 19,
        port_events(pid, ts_us, p)[0] == PartView::Text(counter_head(pid, ts_us, "tx_gbps"@)),
        port_events(pid, ts_us, p)[1] == PartView::Number(FigureView::Gbps(p.tx_bytes)),
        port_events(pid, ts_us, p)[4] == PartView::Text(counter_head(pid, ts_us, "rx_gbps"@)),
        port_events(pid, ts_us, p)[5] == PartView::Number(FigureView::Gbps(p.rx_bytes)),
        port_events(pid, ts_us, p)[8] == PartView::Text(counter_head(pid, ts_us, "tx_pps"@)),
        port_events(pid, ts_us, p)[9] == PartView::Number(FigureView::PerSec(p.tx_pkts)),
        port_events(pid, ts_us, p)[12] == PartView::Text(counter_head(pid, ts_us, "rx_pps"@)),
        port_events(pid, ts_us, p)[13] == PartView::Number(FigureView::PerSec(p.rx_pkts)),
        port_events(pid, ts_us, p)[16] == PartView::Text(
            counter_head(pid, ts_us, "rx_drops_per_sec"@),
        ),
        port_events(pid, ts_us, p)[17] == PartView::Number(FigureView::PerSec(p.rx_drops)),
        counter_head(pid, ts_us, "tx_gbps"@) == "{\"name\":\""@ + "tx_gbps"@
            + "\",\"ph\":\"C\",\"pid\":"@ + text::decimal(pid as nat) + ",\"ts\":"@ + text::decimal(
            ts_us as nat,
        ) + ",\"args\":{\"value\":"@,
{
}

/// The events of a sample are those of its ports one after the other, each under
/// the process of its own port and behind a comma.
pub proof fn law_sample_events_concatenate(
    order: Seq<(Seq<char>, u32)>,
    ts_us: u64,
    a: Seq<PortMetricsView>,
    b: Seq<PortMetricsView>,
    p: PortMetricsView,
)
    ensures
        sample_events(order, ts_us, a + b) == sample_events(order, ts_us, a) + sample_events(
            order,
            ts_us,
            b,
        ),
        sample_events(order, ts_us, seq![p]) == seq![PartView::Text(","@)] + port_events(
            pid_in(order, p.dev_name, p.port),
            ts_us,
            p,
        ),
    decreases b.len(),
{
    assert(seq![p].drop_last() =~= seq![]);
    assert(sample_events(order, ts_us, seq![]) =~= seq![]);
    assert(sample_events(order, ts_us, seq![p]) =~= seq![PartView::Text(","@)] + port_events(
        pid_in(order, p.dev_name, p.port),
        ts_us,
        p,
    ));
    if b.len() == 0 {
        assert(a + b =~= a);
        assert(sample_events(order, ts_us, b) =~= seq![]);
    } else {
        law_sample_events_concatenate(order, ts_us, a, b.drop_last(), p);
        assert((a + b).drop_last() =~= a + b.drop_last());
        assert((a + b).last() == b.last());
    }
    assert(sample_events(order, ts_us, a + b) =~= sample_events(order, ts_us, a) + sample_events(
        order,
        ts_us,
        b,
    ));
}

/// The events of a trace are those of its samples one after the other, each at
/// the sample's own time.
pub proof fn law_trace_events_concatenate(
    order: Seq<(Seq<char>, u32)>,
    a: Seq<TraceSampleView>,
    b: Seq<TraceSampleView>,
    s: TraceSampleView,
)
    ensures
        all_events(order, a + b) == all_events(order, a) + all_events(order, b),
        all_events(order, seq![s]) == sample_events(order, s.ts_us, s.ports),
    decreases b.len(),
{
    assert(seq![s].drop_last() =~= seq![]);
    assert(all_events(order, seq![]) =~= seq![]);
    assert(all_events(order, seq![s]) =~= sample_events(order, s.ts_us, s.ports));
    if b.len() == 0 {
        assert(a + b =~= a);
        assert(all_events(order, b) =~= seq![]);
    } else {
        law_trace_events_concatenate(order, a, b.drop_last(), s);
        assert((a + b).drop_last() =~= a + b.drop_last());
        assert((a + b).last() == b.last());
    }
    assert(all_events(order, a + b) =~= all_events(order, a) + all_events(order, b));
}

/// A row of the table file begins with the start and the end of its reading;
/// each further field is the counter whose name heads it, empty where the port
/// does not have it.
pub proof fn law_row_holds_the_named_counters(
    start: u64,
    end: u64,
    stat: PortStatView,
    i: int,
    k: int,
)
    requires
        0 <= i < 11,
    ensures
        row_fields(start, end, stat).len() == 13,
        row_fields(start, end, stat)[0] == text::decimal(start as nat),
        row_fields(start, end, stat)[1] == text::decimal(end as nat),
        stat::is_first(stat.counters, k, field_names()[i + 2]) ==> row_fields(start, end, stat)[i
            + 2] == text::decimal(stat.counters[k].value as nat),
        stat::uncounted(stat.counters, field_names()[i + 2]) ==> row_fields(start, end, stat)[i
            + 2].len() == 0,
        field_names().len() == 13,
        field_names()[0] == "poll_start_ns"@,
        field_names()[1] == "poll_end_ns"@,
        field_names()[2] == "tx_bytes"@,
        field_names()[3] == "rx_bytes"@,
        field_names()[4] == "tx_pkts"@,
        field_names()[5] == "rx_pkts"@,
        field_names()[6] == "rx_drops"@,
        field_names()[7] == "rdma_write_bytes"@,
        field_names()[8] == "rdma_write_recv_bytes"@,
        field_names()[9] == "rdma_write_wrs"@,
        field_names()[10] == "retrans_bytes"@,
        field_names()[11] == "retrans_pkts"@,
        field_names()[12] == "retrans_timeout_events"@,
{
    stat::law_counter_is_found_by_name(stat.counters, field_names()[i + 2], k);
    assert(field_names()[i + 2] == csv_names()[i]);
}

/// Each option sets its own setting and leaves the others; the last of an option
/// that is given twice counts.
pub proof fn law_option_sets_its_own(s: SettingsView, flag: Seq<char>, value: WordView)
    ensures
        flag == "--format"@ ==> with_option(s, flag, value) == Ok::<_, OptionErrorView>(
            SettingsView { format: Some(value.text), ..s },
        ),
        flag == "--output"@ ==> with_option(s, flag, value) == Ok::<_, OptionErrorView>(
            SettingsView { path: Some(value.text), ..s },
        ),
        flag == "--device"@ ==> with_option(s, flag, value) == Ok::<_, OptionErrorView>(
            SettingsView { device: Some(value.text), ..s },
        ),
        flag == "--port"@ ==> match text::unsigned_value(value.text, u32::MAX as nat) {
            Some(n) => with_option(s, flag, value) == Ok::<_, OptionErrorView>(
                SettingsView { port: n as u32, ..s },
            ),
            None => with_option(s, flag, value) == Err::<SettingsView, _>(
                OptionErrorView::InvalidPort,
            ),
        },
        flag == "--interval"@ ==> match value.as_millis {
            Ok(ns) => with_option(s, flag, value) == Ok::<_, OptionErrorView>(
                SettingsView { interval_ns: ns, ..s },
            ),
            Err(_) => with_option(s, flag, value) is Err,
        },
        flag == "--duration"@ ==> match value.as_secs {
            Ok(ns) => with_option(s, flag, value) == Ok::<_, OptionErrorView>(
                SettingsView { duration_ns: ns, ..s },
            ),
            Err(_) => with_option(s, flag, value) is Err,
        },
        flag != "--format"@ && flag != "--output"@ && flag != "--device"@ && flag != "--port"@
            && flag != "--interval"@ && flag != "--duration"@ ==> with_option(s, flag, value)
            == Err::<SettingsView, _>(OptionErrorView::UnknownOption(flag)),
{
    reveal_strlit("--format");
    reveal_strlit("--output");
    reveal_strlit("--device");
    reveal_strlit("--port");
    reveal_strlit("--interval");
    reveal_strlit("--duration");
    assert("--format"@[2] == 'f');
    assert("--output"@[2] == 'o');
    assert("--device"@[2] == 'd' && "--device"@[3] == 'e');
    assert("--port"@[2] == 'p');
    assert("--interval"@[2] == 'i');
    assert("--duration"@[2] == 'd' && "--duration"@[3] == 'u');
}

/// Options are read in pairs from the front; the first that is refused ends the
/// reading, and one without a value is missing it.
pub proof fn law_options_are_read_in_pairs(
    s: SettingsView,
    flag: WordView,
    value: WordView,
    rest: Seq<WordView>,
)
    ensures
        with_options(s, seq![]) == Ok::<_, OptionErrorView>(s),
        with_options(s, seq![flag]) == Err::<SettingsView, _>(
            OptionErrorView::MissingValue(flag.text),
        ),
        with_options(s, seq![flag, value] + rest) == (match with_option(s, flag.text, value) {
            Ok(next) => with_options(next, rest),
            Err(e) => Err(e),
        }),
{
    let words = seq![flag, value] + rest;
    assert(words.skip(2) =~= rest);
    assert(words[0] == flag && words[1] == value);
}

/// The options that are accepted are the settings as they were given, and each
/// refusal has its own reason: the format first, then the port, the output and
/// the device.
pub proof fn law_settings_are_carried_over(s: SettingsView)
    ensures
        match options_of(s) {
            Ok(o) => {
                &&& s.format == Some("csv"@)
                &&& s.path == Some(o.path) && o.path.len() > 0
                &&& s.device == Some(o.device) && o.device.len() > 0
                &&& s.port == o.port && o.port > 0
                &&& s.interval_ns == o.interval_ns
                &&& s.duration_ns == o.duration_ns
            },
            Err(e) => {
                &&& s.format is None <==> e == OptionErrorView::FormatRequired
                &&& s.format matches Some(f) ==> (f != "csv"@ <==> e
                    == OptionErrorView::UnsupportedFormat(f))
                &&& s.format == Some("csv"@) && s.port == 0 ==> e
                    == OptionErrorView::PortNotPositive
                &&& s.format == Some("csv"@) && s.port > 0 ==> e == OptionErrorView::OutputRequired
                    || e == OptionErrorView::DeviceRequired
                &&& e == OptionErrorView::DeviceRequired ==> s.path is Some && (s.device is None
                    || s.device->0.len() == 0)
                &&& e == OptionErrorView::OutputRequired ==> s.path is None || s.path->0.len() == 0
            },
        },
        default_settings().port == 1,
        default_settings().interval_ns == 1_000_000,
        default_settings().duration_ns == 10_000_000_000,
        default_settings().format is None && default_settings().path is None
            && default_settings().device is None,
{
}

/// A reading counts as one sample, adds the time it took to read, and counts as
/// an overrun only where the whole pass took longer than the interval.
pub proof fn law_reading_is_tallied(
    run: RecordingRun,
    start_ns: u64,
    end_ns: u64,
    took_ns: u128,
)
    requires
        start_ns <= end_ns,
        run.samples < u64::MAX,
        run.overruns < u64::MAX,
        run.read_ns + (end_ns - start_ns) <= u128::MAX,
    ensures
        polled(run, start_ns, end_ns, took_ns).samples == run.samples + 1,
        polled(run, start_ns, end_ns, took_ns).read_ns == run.read_ns + end_ns - start_ns,
        took_ns > run.interval_ns ==> polled(run, start_ns, end_ns, took_ns).overruns
            == run.overruns + 1,
        took_ns <= run.interval_ns ==> polled(run, start_ns, end_ns, took_ns).overruns
            == run.overruns,
        polled(run, start_ns, end_ns, took_ns).interval_ns == run.interval_ns,
        polled(run, start_ns, end_ns, took_ns).duration_ns == run.duration_ns,
{
}

/// A recording goes on until its time is up; it waits out the interval, or what
/// is left of its time where that is less, and does not wait after an overrun.
pub proof fn law_recording_waits_out_the_interval(
    run: RecordingRun,
    took_ns: u128,
    elapsed_ns: u128,
)
    ensures
        elapsed_ns >= run.duration_ns <==> step_of(run, took_ns, elapsed_ns)
            == RecordingStep::Finish,
        elapsed_ns < run.duration_ns && took_ns >= run.interval_ns ==> step_of(
            run,
            took_ns,
            elapsed_ns,
        ) == (RecordingStep::Wait { ns: 0 }),
        elapsed_ns < run.duration_ns && took_ns < run.interval_ns && run.interval_ns - took_ns
            <= run.duration_ns - elapsed_ns ==> step_of(run, took_ns, elapsed_ns) == (
        RecordingStep::Wait { ns: (run.interval_ns - took_ns) as u128 }),
        elapsed_ns < run.duration_ns && took_ns < run.interval_ns && run.interval_ns - took_ns
            > run.duration_ns - elapsed_ns ==> step_of(run, took_ns, elapsed_ns) == (
        RecordingStep::Wait { ns: (run.duration_ns - elapsed_ns) as u128 }),
{
}

/// Each refusal has its own words and names what it refuses.
pub proof fn law_refusals_say_why(s: Seq<char>)
    ensures
        message_of(OptionErrorView::MissingValue(s)) == "missing value for "@ + s,
        message_of(OptionErrorView::InvalidPort) == "invalid port"@,
        message_of(OptionErrorView::InvalidDuration(s)) == "invalid duration: "@ + s,
        message_of(OptionErrorView::DurationOutOfRange(s)) == "duration out of range: "@ + s,
        message_of(OptionErrorView::DurationTooShort) == "duration must be at least 1 ns"@,
        message_of(OptionErrorView::UnknownOption(s)) == "unknown option: "@ + s,
        message_of(OptionErrorView::UnsupportedFormat(s)) == "unsupported format: "@ + s
            + " (expected csv)"@,
        message_of(OptionErrorView::FormatRequired) == "--format is required"@,
        message_of(OptionErrorView::PortNotPositive) == "port must be positive"@,
        message_of(OptionErrorView::OutputRequired) == "--output is required"@,
        message_of(OptionErrorView::DeviceRequired) == "--device is required"@,
        span_error(SpanFault::Invalid, s) == OptionErrorView::InvalidDuration(s),
        span_error(SpanFault::OutOfRange, s) == OptionErrorView::DurationOutOfRange(s),
        span_error(SpanFault::TooShort, s) == OptionErrorView::DurationTooShort,
{
}

/// What a value holds is what its fields hold, each under its own name.
pub proof fn law_views_hold_every_field(
    port_metrics: PortMetrics,
    trace_sample: TraceSample,
    word: Word,
    options: Options,
    settings: Settings,
)
    ensures
        port_metrics@.dev_name == port_metrics.dev_name@,
        port_metrics@.port == port_metrics.port,
        port_metrics@.tx_bytes == port_metrics.tx_bytes@,
        port_metrics@.rx_bytes == port_metrics.rx_bytes@,
        port_metrics@.tx_pkts == port_metrics.tx_pkts@,
        port_metrics@.rx_pkts == port_metrics.rx_pkts@,
        port_metrics@.rx_drops == port_metrics.rx_drops@,
        trace_sample@.ts_us == trace_sample.ts_us,
        trace_sample@.ports == lists::views(trace_sample.ports@),
        word@.text == word.text@,
        word@.as_millis == word.as_millis,
        word@.as_secs == word.as_secs,
        options@.path == options.path@,
        options@.device == options.device@,
        options@.port == options.port,
        options@.interval_ns == options.interval_ns,
        options@.duration_ns == options.duration_ns,
        settings@.format == lists::opt_text(settings.format),
        settings@.path == lists::opt_text(settings.path),
        settings@.device == lists::opt_text(settings.device),
        settings@.port == settings.port,
        settings@.interval_ns == settings.interval_ns,
        settings@.duration_ns == settings.duration_ns,
{
}

/// A trace names one process for each port, in the order of their numbers from 1
/// on, with a comma between two.
pub proof fn law_processes_are_named_in_order(
    order: Seq<(Seq<char>, u32)>,
    dev: Seq<char>,
    port: u32,
)
    ensures
        metadata(seq![]).len() == 0,
        order.len() == 0 ==> metadata(order.push((dev, port))) == seq![
            PartView::Text(process_event(1, dev, port)),
        ],
        order.len() > 0 ==> metadata(order.push((dev, port))) == metadata(order) + seq![
            PartView::Text(","@),
            PartView::Text(process_event(order.len() as int + 1, dev, port)),
        ],
        process_event(order.len() as int + 1, dev, port)
            == "{\"name\":\"process_name\",\"ph\":\"M\",\"pid\":"@ + text::decimal(order.len() + 1)
            + ",\"args\":{\"name\":\""@ + escaped(dev) + ":"@ + text::decimal(port as nat)
            + "\"}}"@,
{
    let next = order.push((dev, port));
    assert(next.drop_last() =~= order);
    if order.len() == 0 {
        assert(metadata(order) =~= seq![]);
        assert(metadata(next) =~= seq![PartView::Text(process_event(1, dev, port))]);
    } else {
        assert(metadata(next) =~= metadata(order) + seq![
            PartView::Text(","@),
            PartView::Text(process_event(order.len() as int + 1, dev, port)),
        ]);
    }
}

/// A trace is one object: the names of its processes, then its events.
pub proof fn law_trace_is_one_object(samples: Seq<TraceSampleView>)
    ensures
        chrome_json(samples).first() == PartView::Text(
            "{\"displayTimeUnit\":\"ns\",\"traceEvents\":["@,
        ),
        chrome_json(samples).last() == PartView::Text("]}"@),
        chrome_json(samples).drop_first().drop_last() == metadata(order_of(samples)) + all_events(
            order_of(samples),
            samples,
        ),
{
    assert(chrome_json(samples).drop_first().drop_last() =~= metadata(order_of(samples))
        + all_events(order_of(samples), samples));
}

/// Ports are numbered as they are first seen: a port that was seen before adds
/// none, a new one comes last.
pub proof fn law_ports_are_numbered_as_seen(
    order: Seq<(Seq<char>, u32)>,
    ports: Seq<PortMetricsView>,
    p: PortMetricsView,
    samples: Seq<TraceSampleView>,
    s: TraceSampleView,
)
    ensures
        order.contains((p.dev_name, p.port)) ==> with_ports(order, seq![p]) == order,
        !order.contains((p.dev_name, p.port)) ==> with_ports(order, seq![p]) == order.push(
            (p.dev_name, p.port),
        ),
        with_ports(order, ports.push(p)) == with_ports(with_ports(order, ports), seq![p]),
        order_of(samples.push(s)) == with_ports(order_of(samples), s.ports),
        order_of(seq![]) == Seq::<(Seq<char>, u32)>::empty(),
{
    lemma_place_is_there(order, p.dev_name, p.port);
    assert(seq![p].drop_last() =~= seq![]);
    assert(with_ports(order, seq![]) == order);
    assert(ports.push(p).drop_last() =~= ports);
    assert(with_ports(with_ports(order, ports), seq![]) == with_ports(order, ports));
    assert(samples.push(s).drop_last() =~= samples);
}

proof fn lemma_place_is_there(order: Seq<(Seq<char>, u32)>, dev: Seq<char>, port: u32)
    ensures
        place_of(order, dev, port) is Some <==> order.contains((dev, port)),
    decreases order.len(),
{
    if order.len() > 0 && order[0] != (dev, port) {
        let rest = order.drop_first();
        lemma_place_is_there(rest, dev, port);
        if rest.contains((dev, port)) {
            let k = rest.index_of((dev, port));
            assert(order[k + 1] == (dev, port));
        }
        if order.contains((dev, port)) {
            let k = order.index_of((dev, port));
            assert(rest[k - 1] == (dev, port));
        }
    } else if order.len() > 0 {
        assert(order[0] == (dev, port));
    }
}

} // verus!
