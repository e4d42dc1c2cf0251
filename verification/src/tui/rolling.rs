//! Rolling averages and histories of the throughput rows.

use vstd::prelude::*;

use crate::lists;
use crate::metrics;
use crate::metrics::{CounterRate, CounterRateView, Mean, MeanView};
use crate::text;
use crate::tui::rows;
use crate::tui::rows::{PortThroughput, RowView};

verus! {

pub const ROLLING_AVG_DEFAULT_WINDOW: usize = 5;

pub const ROLLING_AVG_MIN_WINDOW: usize = 1;

pub const ROLLING_AVG_MAX_WINDOW: usize = 300;

/// The recent samples of one row, oldest first.
#[derive(Debug)]
pub struct SampleBuffer {
    pub key: String,
    pub rows: Vec<PortThroughput>,
}

/// What a sample buffer holds.
#[verifier::ext_equal]
pub struct BufferView {
    pub key: Seq<char>,
    pub rows: Seq<RowView>,
}

impl View for SampleBuffer {
    type V = BufferView;

    open spec fn view(&self) -> BufferView {
        BufferView { key: self.key@, rows: lists::views(self.rows@) }
    }
}

/// Rolling average calculator: stores recent samples per row and computes the
/// mean over a configurable window.
#[derive(Debug)]
pub struct RollingAvgState {
    /// One buffer for each row that is shown, in the order in which the rows
    /// first appeared.
    pub samples: Vec<SampleBuffer>,
    /// Window size in seconds (each sample ≈ 1s)
    pub window_secs: usize,
}

/// What the calculator holds.
#[verifier::ext_equal]
pub struct RollingView {
    pub samples: Seq<BufferView>,
    pub window_secs: int,
}

impl View for RollingAvgState {
    type V = RollingView;

    open spec fn view(&self) -> RollingView {
        RollingView {
            samples: lists::views(self.samples@),
            window_secs: self.window_secs as int,
        }
    }
}

/// Where the buffer of a key stands.
pub open spec fn buffer_index(s: Seq<BufferView>, key: Seq<char>) -> Option<int>
    decreases s.len(),
{
    if s.len() == 0 {
        None
    } else if s.last().key == key {
        Some(s.len() - 1)
    } else {
        buffer_index(s.drop_last(), key)
    }
}

/// The samples of a row with one more; the oldest leaves a full buffer.
pub open spec fn with_sample(rows: Seq<RowView>, t: RowView) -> Seq<RowView> {
    if rows.len() >= ROLLING_AVG_MAX_WINDOW {
        rows.drop_first().push(t)
    } else {
        rows.push(t)
    }
}

/// All buffers with one more sample.
pub open spec fn with_row(s: Seq<BufferView>, t: RowView) -> Seq<BufferView> {
    let key = rows::row_key(t);
    match buffer_index(s, key) {
        Some(i) => s.update(i, BufferView { key, rows: with_sample(s[i].rows, t) }),
        None => s.push(BufferView { key, rows: seq![t] }),
    }
}

/// All buffers with the samples of a refresh.
pub open spec fn with_rows(s: Seq<BufferView>, rows: Seq<RowView>) -> Seq<BufferView>
    decreases rows.len(),
{
    if rows.len() == 0 {
        s
    } else {
        with_row(with_rows(s, rows.drop_last()), rows.last())
    }
}

/// Whether some row has a key.
pub open spec fn has_key(rows: Seq<RowView>, key: Seq<char>) -> bool {
    exists|i: int| 0 <= i < rows.len() && rows::row_key(#[trigger] rows[i]) == key
}

/// The buffers whose row is in a list.
pub open spec fn kept(s: Seq<BufferView>, rows: Seq<RowView>) -> Seq<BufferView>
    decreases s.len(),
{
    if s.len() == 0 {
        s
    } else if has_key(rows, s.last().key) {
        kept(s.drop_last(), rows).push(s.last())
    } else {
        kept(s.drop_last(), rows)
    }
}

/// Whether every row has at most one buffer.
pub open spec fn keys_unique(s: Seq<BufferView>) -> bool {
    forall|i: int, j: int|
        #![trigger s[i], s[j]]
        0 <= i < j < s.len() ==> s[i].key != s[j].key
}

/// Whether no buffer is empty or longer than the longest window.
pub open spec fn buffers_bounded(s: Seq<BufferView>) -> bool {
    forall|i: int| 0 <= i < s.len() ==> 1 <= (#[trigger] s[i]).rows.len() <= 300
}

/// Whether there is one buffer for each row, with samples in it and no more of
/// them than the longest window takes.
pub open spec fn buffers_ok(s: Seq<BufferView>) -> bool {
    keys_unique(s) && buffers_bounded(s)
}

proof fn lemma_buffer_index(s: Seq<BufferView>, key: Seq<char>)
    ensures
        match buffer_index(s, key) {
            Some(i) => 0 <= i < s.len() && s[i].key == key,
            None => forall|i: int| 0 <= i < s.len() ==> (#[trigger] s[i]).key != key,
        },
    decreases s.len(),
{
    if s.len() > 0 && s.last().key != key {
        lemma_buffer_index(s.drop_last(), key);
        if buffer_index(s, key) is None {
            assert forall|i: int| 0 <= i < s.len() implies (#[trigger] s[i]).key != key by {
                if i < s.len() - 1 {
                    assert(s[i] == s.drop_last()[i]);
                }
            }
        }
    }
}

fn find_buffer(s: &[SampleBuffer], key: &str) -> (r: Option<usize>)
    ensures
        match buffer_index(lists::views(s@), key@) {
            Some(i) => r is Some && r->0 == i && i < s@.len(),
            None => r is None,
        },
{
    let ghost all = lists::views(s@);
    let mut i: usize = s.len();
    assert(all.take(i as int) =~= all);
    while i > 0
        invariant
            i <= s.len(),
            all == lists::views(s@),
            buffer_index(all, key@) == buffer_index(all.take(i as int), key@),
        decreases i,
    {
        proof {
            text::lemma_take_step(all, i - 1);
            assert(all[i - 1] == s@[i - 1]@);
        }
        if text::same(s[i - 1].key.as_str(), key) {
            return Some(i - 1);
        }
        i -= 1;
    }
    None
}

/// The samples in the window: the newest ones, at most as many as the window
/// is long.
pub open spec fn window_of(rows: Seq<RowView>, window_secs: int) -> Seq<RowView> {
    if window_secs >= rows.len() {
        rows
    } else {
        rows.skip(rows.len() - window_secs)
    }
}

/// A figure in each of some samples.
pub open spec fn figures(rows: Seq<RowView>, figure: spec_fn(RowView) -> MeanView) -> Seq<
    MeanView,
> {
    Seq::new(rows.len(), |i: int| figure(rows[i]))
}

/// The first counter with a name.
pub open spec fn counter_named(rates: Seq<CounterRateView>, name: Seq<char>) -> Option<
    CounterRateView,
>
    decreases rates.len(),
{
    if rates.len() == 0 {
        None
    } else if rates[0].name == name {
        Some(rates[0])
    } else {
        counter_named(rates.drop_first(), name)
    }
}

/// A counter in those samples that have it.
pub open spec fn present_in(rows: Seq<RowView>, name: Seq<char>) -> Seq<CounterRateView>
    decreases rows.len(),
{
    if rows.len() == 0 {
        seq![]
    } else {
        let before = present_in(rows.drop_last(), name);
        match counter_named(rows.last().counter_rates, name) {
            Some(c) => before.push(c),
            None => before,
        }
    }
}

/// The changes of a counter added up.
pub open spec fn delta_sum(rates: Seq<CounterRateView>) -> int
    decreases rates.len(),
{
    if rates.len() == 0 {
        0
    } else {
        delta_sum(rates.drop_last()) + rates.last().delta
    }
}

/// The rates of a counter.
pub open spec fn rates_of(rates: Seq<CounterRateView>) -> Seq<MeanView> {
    Seq::new(rates.len(), |i: int| rates[i].rate)
}

/// The average of one counter. Only samples that have it contribute, so a
/// counter that is briefly absent is not pulled toward zero.
pub open spec fn counter_average(cr: CounterRateView, window: Seq<RowView>) -> CounterRateView {
    let present = present_in(window, cr.name);
    if present.len() == 0 {
        CounterRateView {
            name: cr.name,
            value: cr.value,
            delta: 0,
            rate: MeanView::One(metrics::no_rate()),
            is_bytes: cr.is_bytes,
        }
    } else {
        CounterRateView {
            name: cr.name,
            value: present.last().value,
            delta: (delta_sum(present) / present.len() as int) as u64,
            rate: metrics::mean_of(rates_of(present)),
            is_bytes: cr.is_bytes,
        }
    }
}

/// The averages of all counters of the newest sample.
pub open spec fn counter_averages(window: Seq<RowView>) -> Seq<CounterRateView> {
    Seq::new(
        window.last().counter_rates.len(),
        |i: int| counter_average(window.last().counter_rates[i], window),
    )
}

/// The average of some samples of a row. Whatever is not a rate comes from the
/// newest sample.
pub open spec fn average_of(window: Seq<RowView>) -> RowView {
    RowView {
        tx_bytes: metrics::mean_of(figures(window, |t: RowView| t.tx_bytes)),
        rx_bytes: metrics::mean_of(figures(window, |t: RowView| t.rx_bytes)),
        tx_pkts: metrics::mean_of(figures(window, |t: RowView| t.tx_pkts)),
        rx_pkts: metrics::mean_of(figures(window, |t: RowView| t.rx_pkts)),
        rx_drops: metrics::mean_of(figures(window, |t: RowView| t.rx_drops)),
        counter_rates: counter_averages(window),
        ..window.last()
    }
}

/// The averages of all buffers that hold a sample.
pub open spec fn averages_of(s: Seq<BufferView>, window_secs: int) -> Seq<RowView>
    decreases s.len(),
{
    if s.len() == 0 {
        seq![]
    } else {
        let before = averages_of(s.drop_last(), window_secs);
        if s.last().rows.len() == 0 {
            before
        } else {
            before.push(average_of(window_of(s.last().rows, window_secs)))
        }
    }
}

/// The most samples that any window holds.
pub open spec fn most_samples(s: Seq<BufferView>, window_secs: int) -> int
    decreases s.len(),
{
    if s.len() == 0 {
        0
    } else {
        let before = most_samples(s.drop_last(), window_secs);
        let here = window_of(s.last().rows, window_secs).len() as int;
        if here > before {
            here
        } else {
            before
        }
    }
}

/// Adds the figure of one more sample.
fn push_part(out: &mut Vec<Mean>, part: &Mean)
    ensures
        lists::views(final(out)@) == lists::views(old(out)@).push(part@),
{
    let copy = part.clone();
    proof {
        lists::lemma_views_push(out@, copy);
    }
    out.push(copy);
}

proof fn lemma_no_parts(out: Seq<Mean>, rows: Seq<RowView>, figure: spec_fn(RowView) -> MeanView)
    requires
        out.len() == 0,
    ensures
        lists::views(out) == figures(rows, figure).take(0),
{
    assert(lists::views(out) =~= figures(rows, figure).take(0));
}

proof fn lemma_all_parts(rows: Seq<RowView>, figure: spec_fn(RowView) -> MeanView)
    ensures
        figures(rows, figure).take(rows.len() as int) == figures(rows, figure),
{
    assert(figures(rows, figure).take(rows.len() as int) =~= figures(rows, figure));
}

fn find_counter<'a>(rates: &'a [CounterRate], name: &str) -> (r: Option<&'a CounterRate>)
    ensures
        lists::opt_view(r) == counter_named(lists::views(rates@), name@),
{
    let ghost all = lists::views(rates@);
    let mut i: usize = 0;
    assert(all.skip(0) =~= all);
    while i < rates.len()
        invariant
            i <= rates.len(),
            all == lists::views(rates@),
            counter_named(all, name@) == counter_named(all.skip(i as int), name@),
        decreases rates.len() - i,
    {
        assert(all.skip(i as int)[0] == rates@[i as int]@);
        if text::same(rates[i].name.as_str(), name) {
            return Some(&rates[i]);
        }
        assert(all.skip(i as int).drop_first() =~= all.skip(i + 1));
        i += 1;
    }
    None
}

impl RollingAvgState {
    pub fn new(window_secs: usize) -> (r: Self)
        ensures
            r@ == (RollingView { samples: seq![], window_secs: window_secs as int }),
            buffers_ok(r@.samples),
    {
        let r = RollingAvgState { samples: Vec::new(), window_secs };
        assert(lists::views(r.samples@) =~= seq![]);
        r
    }

    /// Push a new set of throughput samples (called once per refresh).
    /// Prunes buffers of rows that no longer appear in `throughputs`.
    pub fn push(&mut self, throughputs: &[PortThroughput])
        requires
            buffers_ok(old(self)@.samples),
        ensures
            buffers_ok(final(self)@.samples),
            final(self)@ == (RollingView {
                samples: kept(
                    with_rows(old(self)@.samples, lists::views(throughputs@)),
                    lists::views(throughputs@),
                ),
                ..old(self)@
            }),
    {
        let ghost start = self@.samples;
        let ghost all = lists::views(throughputs@);
        let mut keys: Vec<String> = Vec::new();
        let mut samples: Vec<SampleBuffer> = Vec::new();
        core::mem::swap(&mut samples, &mut self.samples);
        let mut i: usize = 0;
        assert(all.take(0) =~= seq![]);
        while i < throughputs.len()
            invariant
                i <= throughputs.len(),
                all == lists::views(throughputs@),
                lists::views(samples@) == with_rows(start, all.take(i as int)),
                keys@.len() == i,
                forall|k: int| 0 <= k < i ==> (#[trigger] keys@[k])@ == rows::row_key(all[k]),
            decreases throughputs.len() - i,
        {
            let t = &throughputs[i];
            proof {
                text::lemma_take_step(all, i as int);
                assert(all[i as int] == t@);
            }
            let key = rows::throughput_key(t);
            keys.push(key.clone());
            let ghost before = lists::views(samples@);
            proof {
                lemma_buffer_index(before, key@);
            }
            match find_buffer(samples.as_slice(), key.as_str()) {
                Some(k) => {
                    assert(before[k as int] == samples@[k as int]@);
                    let mut buf = samples.remove(k);
                    let ghost held = buf.rows@;
                    if buf.rows.len() >= ROLLING_AVG_MAX_WINDOW {
                        buf.rows.remove(0);
                        assert(lists::views(buf.rows@) =~= lists::views(held).drop_first());
                    }
                    let copy = t.clone();
                    proof {
                        lists::lemma_views_push(buf.rows@, copy);
                    }
                    buf.rows.push(copy);
                    samples.insert(k, buf);
                    assert(lists::views(samples@) =~= before.update(k as int, buf@));
                },
                None => {
                    let mut list: Vec<PortThroughput> = Vec::new();
                    list.push(t.clone());
                    let buf = SampleBuffer { key, rows: list };
                    assert(buf@.rows =~= seq![t@]);
                    proof {
                        lists::lemma_views_push(samples@, buf);
                    }
                    samples.push(buf);
                },
            }
            i += 1;
        }
        assert(all.take(all.len() as int) =~= all);
        let ghost pushed = lists::views(samples@);
        let mut out: Vec<SampleBuffer> = Vec::new();
        assert(kept(pushed.take(0), all) =~= seq![]);
        assert(lists::views(out@) =~= seq![]);
        for buf in it: samples
            invariant
                lists::views(it.seq()) == pushed,
                lists::views(out@) == kept(pushed.take(it.index() as int), all),
                keys@.len() == all.len(),
                forall|k: int|
                    0 <= k < all.len() ==> (#[trigger] keys@[k])@ == rows::row_key(all[k]),
        {
            proof {
                text::lemma_take_step(pushed, it.index() as int);
                assert(pushed[it.index() as int] == buf@);
            }
            let keep: bool = contains_key(keys.as_slice(), buf.key.as_str(), Ghost(all));
            if keep {
                proof {
                    lists::lemma_views_push(out@, buf);
                }
                out.push(buf);
            }
        }
        assert(pushed.take(pushed.len() as int) =~= pushed);
        proof {
            law_refresh_keeps_buffers(start, all);
        }
        self.samples = out;
    }

    /// Compute averaged throughput for all rows currently tracked.
    pub fn averages(&self) -> (r: Vec<PortThroughput>)
        requires
            self.window_secs >= 1,
        ensures
            lists::views(r@) == averages_of(self@.samples, self@.window_secs),
    {
        let ghost all = self@.samples;
        let mut out: Vec<PortThroughput> = Vec::new();
        let mut i: usize = 0;
        assert(lists::views(out@) =~= averages_of(all.take(0), self@.window_secs));
        while i < self.samples.len()
            invariant
                i <= self.samples.len(),
                self.window_secs >= 1,
                all == lists::views(self.samples@),
                lists::views(out@) == averages_of(all.take(i as int), self@.window_secs),
            decreases self.samples.len() - i,
        {
            proof {
                text::lemma_take_step(all, i as int);
                assert(all[i as int] == self.samples@[i as int]@);
            }
            if let Some(avg) = Self::average_window(
                self.samples[i].rows.as_slice(),
                self.window_secs,
            ) {
                proof {
                    lists::lemma_views_push(out@, avg);
                }
                out.push(avg);
            }
            i += 1;
        }
        assert(all.take(all.len() as int) =~= all);
        out
    }

    /// Compute the rolling average for a single row's samples.
    pub fn average_window(buf: &[PortThroughput], window_secs: usize) -> (r: Option<PortThroughput>)
        requires
            window_secs >= 1,
        ensures
            match r {
                Some(avg) => buf@.len() > 0 && avg@ == average_of(
                    window_of(lists::views(buf@), window_secs as int),
                ),
                None => buf@.len() == 0,
            },
    {
        let n: usize = buf.len();
        if n == 0 {
            return None;
        }
        let start: usize = n.saturating_sub(window_secs);
        let window: &[PortThroughput] = &buf[start..n];
        let ghost win = lists::views(window@);
        assert(win =~= window_of(lists::views(buf@), window_secs as int));
        let mut tx_bytes: Vec<Mean> = Vec::new();
        let mut rx_bytes: Vec<Mean> = Vec::new();
        let mut tx_pkts: Vec<Mean> = Vec::new();
        let mut rx_pkts: Vec<Mean> = Vec::new();
        let mut rx_drops: Vec<Mean> = Vec::new();
        let mut i: usize = 0;
        proof {
            lemma_no_parts(tx_bytes@, win, |t: RowView| t.tx_bytes);
            lemma_no_parts(rx_bytes@, win, |t: RowView| t.rx_bytes);
            lemma_no_parts(tx_pkts@, win, |t: RowView| t.tx_pkts);
            lemma_no_parts(rx_pkts@, win, |t: RowView| t.rx_pkts);
            lemma_no_parts(rx_drops@, win, |t: RowView| t.rx_drops);
        }
        while i < window.len()
            invariant
                i <= window.len(),
                win == lists::views(window@),
                lists::views(tx_bytes@) == figures(win, |t: RowView| t.tx_bytes).take(i as int),
                lists::views(rx_bytes@) == figures(win, |t: RowView| t.rx_bytes).take(i as int),
                lists::views(tx_pkts@) == figures(win, |t: RowView| t.tx_pkts).take(i as int),
                lists::views(rx_pkts@) == figures(win, |t: RowView| t.rx_pkts).take(i as int),
                lists::views(rx_drops@) == figures(win, |t: RowView| t.rx_drops).take(i as int),
            decreases window.len() - i,
        {
            let s = &window[i];
            proof {
                assert(win[i as int] == s@);
                text::lemma_take_step(figures(win, |t: RowView| t.tx_bytes), i as int);
                text::lemma_take_step(figures(win, |t: RowView| t.rx_bytes), i as int);
                text::lemma_take_step(figures(win, |t: RowView| t.tx_pkts), i as int);
                text::lemma_take_step(figures(win, |t: RowView| t.rx_pkts), i as int);
                text::lemma_take_step(figures(win, |t: RowView| t.rx_drops), i as int);
            }
            push_part(&mut tx_bytes, &s.tx_bytes);
            push_part(&mut rx_bytes, &s.rx_bytes);
            push_part(&mut tx_pkts, &s.tx_pkts);
            push_part(&mut rx_pkts, &s.rx_pkts);
            push_part(&mut rx_drops, &s.rx_drops);
            i += 1;
        }
        proof {
            lemma_all_parts(win, |t: RowView| t.tx_bytes);
            lemma_all_parts(win, |t: RowView| t.rx_bytes);
            lemma_all_parts(win, |t: RowView| t.tx_pkts);
            lemma_all_parts(win, |t: RowView| t.rx_pkts);
            lemma_all_parts(win, |t: RowView| t.rx_drops);
        }
        // Copy metadata from the newest sample: the port and label of an older
        // one may count links that are no longer active.
        let last: usize = window.len() - 1;
        let latest = &window[last];
        assert(win.last() == latest@);
        let ghost goal = counter_averages(win);
        let mut counter_rates: Vec<CounterRate> = Vec::new();
        let mut k: usize = 0;
        assert(lists::views(counter_rates@) =~= goal.take(0));
        while k < latest.counter_rates.len()
            invariant
                k <= latest.counter_rates.len(),
                win == lists::views(window@),
                win.last() == latest@,
                goal == counter_averages(win),
                lists::views(counter_rates@) == goal.take(k as int),
            decreases latest.counter_rates.len() - k,
        {
            let avg = Self::average_counter_rate(&latest.counter_rates[k], window);
            proof {
                lists::lemma_views_push(counter_rates@, avg);
                text::lemma_take_step(goal, k as int);
                assert(latest@.counter_rates[k as int] == latest.counter_rates@[k as int]@);
            }
            counter_rates.push(avg);
            k += 1;
        }
        assert(goal.take(goal.len() as int) =~= goal);
        let base = latest.clone();
        let avg = PortThroughput {
            dev_name: base.dev_name,
            port: base.port,
            link_mbps: base.link_mbps,
            tx_bytes: Mean::average(tx_bytes),
            rx_bytes: Mean::average(rx_bytes),
            tx_pkts: Mean::average(tx_pkts),
            rx_pkts: Mean::average(rx_pkts),
            rx_drops: Mean::average(rx_drops),
            counter_rates,
            port_label: base.port_label,
            nvlink: base.nvlink,
            xgmi: base.xgmi,
            class: base.class,
        };
        assert(avg@ == average_of(win));
        Some(avg)
    }

    /// Compute the average of a single counter rate across a window of samples.
    pub fn average_counter_rate(cr: &CounterRate, window: &[PortThroughput]) -> (r: CounterRate)
        ensures
            r@ == counter_average(cr@, lists::views(window@)),
    {
        let ghost win = lists::views(window@);
        let mut n: u64 = 0;
        let mut sum: u128 = 0;
        let mut latest_value: u64 = cr.value;
        let mut parts: Vec<Mean> = Vec::new();
        let mut i: usize = 0;
        assert(lists::views(parts@) =~= rates_of(present_in(win.take(0), cr.name@)));
        while i < window.len()
            invariant
                i <= window.len(),
                win == lists::views(window@),
                n == present_in(win.take(i as int), cr.name@).len(),
                n <= i,
                sum == delta_sum(present_in(win.take(i as int), cr.name@)),
                sum <= n * 0xffff_ffff_ffff_ffff,
                lists::views(parts@) == rates_of(present_in(win.take(i as int), cr.name@)),
                n > 0 ==> latest_value == present_in(win.take(i as int), cr.name@).last().value,
            decreases window.len() - i,
        {
            proof {
                text::lemma_take_step(win, i as int);
                assert(win[i as int] == window@[i as int]@);
            }
            if let Some(c) = find_counter(window[i].counter_rates.as_slice(), cr.name.as_str()) {
                proof {
                    let before = present_in(win.take(i as int), cr.name@);
                    assert(before.push(c@).drop_last() =~= before);
                    assert(rates_of(before.push(c@)) =~= rates_of(before).push(c@.rate));
                    assert(n * 0xffff_ffff_ffff_ffff + 0xffff_ffff_ffff_ffff == (n + 1)
                        * 0xffff_ffff_ffff_ffff);
                    assert((n + 1) * 0xffff_ffff_ffff_ffff <= 0x1_0000_0000_0000_0000
                        * 0xffff_ffff_ffff_ffff);
                }
                n += 1;
                sum = sum + c.delta as u128;
                latest_value = c.value;
                push_part(&mut parts, &c.rate);
            }
            i += 1;
        }
        assert(win.take(win.len() as int) =~= win);
        if n == 0 {
            return CounterRate {
                name: cr.name.clone(),
                value: cr.value,
                delta: 0,
                rate: Mean::zero(),
                is_bytes: cr.is_bytes,
            };
        }
        let mean: u128 = sum / n as u128;
        assert(mean <= 0xffff_ffff_ffff_ffff) by (nonlinear_arith)
            requires
                n > 0,
                sum <= n * 0xffff_ffff_ffff_ffff,
                mean == sum / n as u128,
        ;
        CounterRate {
            name: cr.name.clone(),
            value: latest_value,
            delta: mean as u64,
            rate: Mean::average(parts),
            is_bytes: cr.is_bytes,
        }
    }

    pub fn sample_count(&self) -> (r: usize)
        ensures
            r == most_samples(self@.samples, self@.window_secs),
    {
        let ghost all = self@.samples;
        let mut most: usize = 0;
        let mut i: usize = 0;
        while i < self.samples.len()
            invariant
                i <= self.samples.len(),
                all == lists::views(self.samples@),
                most == most_samples(all.take(i as int), self@.window_secs),
            decreases self.samples.len() - i,
        {
            proof {
                text::lemma_take_step(all, i as int);
                assert(all[i as int] == self.samples@[i as int]@);
            }
            let n: usize = self.samples[i].rows.len();
            let here: usize = if n < self.window_secs {
                n
            } else {
                self.window_secs
            };
            if here > most {
                most = here;
            }
            i += 1;
        }
        assert(all.take(all.len() as int) =~= all);
        most
    }

    pub fn increase_window(&mut self)
        ensures
            final(self)@ == (RollingView {
                window_secs: if old(self)@.window_secs < 300 {
                    old(self)@.window_secs + 1
                } else {
                    300
                },
                ..old(self)@
            }),
    {
        if self.window_secs < ROLLING_AVG_MAX_WINDOW {
            self.window_secs = self.window_secs + 1;
        } else {
            self.window_secs = ROLLING_AVG_MAX_WINDOW;
        }
    }

    pub fn decrease_window(&mut self)
        ensures
            final(self)@ == (RollingView {
                window_secs: if old(self)@.window_secs > 2 {
                    old(self)@.window_secs - 1
                } else {
                    1
                },
                ..old(self)@
            }),
    {
        if self.window_secs > 2 {
            self.window_secs = self.window_secs - 1;
        } else {
            self.window_secs = ROLLING_AVG_MIN_WINDOW;
        }
    }

    pub fn set_window(&mut self, secs: usize)
        ensures
            final(self)@ == (RollingView { window_secs: clamped(secs as int), ..old(self)@ }),
    {
        self.window_secs = if secs < ROLLING_AVG_MIN_WINDOW {
            ROLLING_AVG_MIN_WINDOW
        } else if secs > ROLLING_AVG_MAX_WINDOW {
            ROLLING_AVG_MAX_WINDOW
        } else {
            secs
        };
    }
}

/// A window size brought into range.
pub open spec fn clamped(secs: int) -> int {
    if secs < 1 {
        1
    } else if secs > 300 {
        300
    } else {
        secs
    }
}

fn contains_key(keys: &[String], key: &str, Ghost(all): Ghost<Seq<RowView>>) -> (r: bool)
    requires
        keys@.len() == all.len(),
        forall|k: int| 0 <= k < all.len() ==> (#[trigger] keys@[k])@ == rows::row_key(all[k]),
    ensures
        r == has_key(all, key@),
{
    let mut i: usize = 0;
    while i < keys.len()
        invariant
            i <= keys.len(),
            keys@.len() == all.len(),
            forall|k: int| 0 <= k < all.len() ==> (#[trigger] keys@[k])@ == rows::row_key(all[k]),
            forall|k: int| 0 <= k < i ==> rows::row_key(#[trigger] all[k]) != key@,
        decreases keys.len() - i,
    {
        assert(keys@[i as int]@ == rows::row_key(all[i as int]));
        if text::same(keys[i].as_str(), key) {
            return true;
        }
        i += 1;
    }
    false
}

/// One more sample keeps one buffer for each row, and no buffer outgrows the
/// longest window.
pub proof fn law_sample_keeps_buffers(s: Seq<BufferView>, t: RowView)
    requires
        buffers_ok(s),
    ensures
        buffers_ok(with_row(s, t)),
{
    lemma_buffer_index(s, rows::row_key(t));
}

/// A refresh keeps one buffer for each row, with the samples bounded.
pub proof fn law_refresh_keeps_buffers(s: Seq<BufferView>, rows: Seq<RowView>)
    requires
        buffers_ok(s),
    ensures
        buffers_ok(kept(with_rows(s, rows), rows)),
        forall|i: int|
            0 <= i < kept(with_rows(s, rows), rows).len() ==> has_key(
                rows,
                (#[trigger] kept(with_rows(s, rows), rows)[i]).key,
            ),
{
    lemma_with_rows_keeps(s, rows);
    lemma_kept_keeps(with_rows(s, rows), rows);
}

proof fn lemma_with_rows_keeps(s: Seq<BufferView>, rows: Seq<RowView>)
    requires
        buffers_ok(s),
    ensures
        buffers_ok(with_rows(s, rows)),
    decreases rows.len(),
{
    if rows.len() > 0 {
        lemma_with_rows_keeps(s, rows.drop_last());
        law_sample_keeps_buffers(with_rows(s, rows.drop_last()), rows.last());
    }
}

proof fn lemma_kept_keeps(s: Seq<BufferView>, rows: Seq<RowView>)
    requires
        buffers_ok(s),
    ensures
        buffers_ok(kept(s, rows)),
        forall|i: int| 0 <= i < kept(s, rows).len() ==> s.contains(#[trigger] kept(s, rows)[i]),
        forall|i: int|
            0 <= i < kept(s, rows).len() ==> has_key(rows, (#[trigger] kept(s, rows)[i]).key),
    decreases s.len(),
{
    if s.len() > 0 {
        let head = s.drop_last();
        assert forall|i: int, j: int|
            #![trigger head[i], head[j]]
            0 <= i < j < head.len() implies head[i].key != head[j].key by {
            assert(head[i] == s[i] && head[j] == s[j]);
        }
        assert forall|i: int| 0 <= i < head.len() implies 1 <= (#[trigger] head[i]).rows.len()
            <= 300 by {
            assert(head[i] == s[i]);
        }
        lemma_kept_keeps(head, rows);
        let before = kept(head, rows);
        let after = kept(s, rows);
        assert(s[s.len() - 1] == s.last());
        assert forall|i: int| 0 <= i < after.len() implies s.contains(#[trigger] after[i])
            && has_key(rows, after[i].key) && 1 <= after[i].rows.len() <= 300 by {
            if i < before.len() {
                assert(after[i] == before[i]);
                assert(head.contains(before[i]));
                let k = choose|k: int| 0 <= k < head.len() && head[k] == before[i];
                assert(s[k] == after[i]);
            }
        }
        assert forall|i: int, j: int|
            #![trigger after[i], after[j]]
            0 <= i < j < after.len() implies after[i].key != after[j].key by {
            assert(after[i] == before[i]);
            if j < before.len() {
                assert(after[j] == before[j]);
            } else {
                assert(head.contains(before[i]));
                let k = choose|k: int| 0 <= k < head.len() && head[k] == before[i];
                assert(s[k] == after[i]);
            }
        }
    }
}

/// Whatever the window was, a change leaves it between one second and five
/// minutes.
pub proof fn law_window_in_range(secs: int)
    ensures
        1 <= clamped(secs) <= 300,
        1 <= secs <= 300 ==> clamped(secs) == secs,
        clamped(clamped(secs)) == clamped(secs),
{
}

/// An averaged row keeps the identity of the row it averages.
pub proof fn law_average_keeps_key(window: Seq<RowView>)
    requires
        window.len() > 0,
    ensures
        rows::row_key(average_of(window)) == rows::row_key(window.last()),
{
}

/// Every sample counts once in an average, and every sample that has a counter
/// counts once in the average of that counter: each is the sum of the samples'
/// own rates divided by how many there are.
pub proof fn law_average_counts_each_sample_once(window: Seq<RowView>, cr: CounterRateView)
    requires
        window.len() > 0,
    ensures
        is_mean(average_of(window).tx_bytes, figures(window, |t: RowView| t.tx_bytes)),
        is_mean(average_of(window).rx_bytes, figures(window, |t: RowView| t.rx_bytes)),
        is_mean(average_of(window).tx_pkts, figures(window, |t: RowView| t.tx_pkts)),
        is_mean(average_of(window).rx_pkts, figures(window, |t: RowView| t.rx_pkts)),
        is_mean(average_of(window).rx_drops, figures(window, |t: RowView| t.rx_drops)),
        present_in(window, cr.name).len() > 0 ==> is_mean(
            counter_average(cr, window).rate,
            rates_of(present_in(window, cr.name)),
        ),
{
    metrics::law_each_part_counts_once(figures(window, |t: RowView| t.tx_bytes));
    metrics::law_each_part_counts_once(figures(window, |t: RowView| t.rx_bytes));
    metrics::law_each_part_counts_once(figures(window, |t: RowView| t.tx_pkts));
    metrics::law_each_part_counts_once(figures(window, |t: RowView| t.rx_pkts));
    metrics::law_each_part_counts_once(figures(window, |t: RowView| t.rx_drops));
    let present = present_in(window, cr.name);
    if present.len() > 0 {
        metrics::law_each_part_counts_once(rates_of(present));
    }
}

/// Whether a mean is the sum of some means divided by their number.
pub open spec fn is_mean(m: MeanView, parts: Seq<MeanView>) -> bool {
    metrics::fraction(m) == (
        metrics::fraction_sum(parts).0,
        metrics::fraction_sum(parts).1 * parts.len(),
    )
}

/// The average of a single sample is the sample, if it names no counter twice.
pub proof fn law_average_of_one(t: RowView)
    requires
        forall|i: int, j: int|
            #![trigger t.counter_rates[i], t.counter_rates[j]]
            0 <= i < j < t.counter_rates.len() ==> t.counter_rates[i].name
                != t.counter_rates[j].name,
    ensures
        average_of(seq![t]) == t,
{
    let window = seq![t];
    assert(window.drop_last() =~= seq![]);
    assert(window.last() == t);
    reveal_with_fuel(present_in, 2);
    reveal_with_fuel(delta_sum, 2);
    let avg = average_of(window);
    assert(avg.tx_bytes =~= t.tx_bytes);
    assert(avg.rx_bytes =~= t.rx_bytes);
    assert(avg.tx_pkts =~= t.tx_pkts);
    assert(avg.rx_pkts =~= t.rx_pkts);
    assert(avg.rx_drops =~= t.rx_drops);
    assert forall|i: int| 0 <= i < t.counter_rates.len() implies counter_average(
        t.counter_rates[i],
        window,
    ) == #[trigger] t.counter_rates[i] by {
        let c = t.counter_rates[i];
        lemma_counter_named(t.counter_rates, i);
        let present = present_in(window, c.name);
        assert(present =~= seq![c]);
        assert(present.drop_last() =~= seq![]);
        assert(delta_sum(present) == c.delta);
        assert(metrics::mean_of(rates_of(present)) == c.rate);
        assert(counter_average(c, window) =~= c);
    }
    assert(avg.counter_rates =~= t.counter_rates);
    assert(avg =~= t);
}

proof fn lemma_counter_named(rates: Seq<CounterRateView>, i: int)
    requires
        0 <= i < rates.len(),
        forall|k: int, j: int|
            #![trigger rates[k], rates[j]]
            0 <= k < j < rates.len() ==> rates[k].name != rates[j].name,
    ensures
        counter_named(rates, rates[i].name) == Some(rates[i]),
    decreases rates.len(),
{
    if i > 0 {
        let rest = rates.drop_first();
        assert(rest[i - 1] == rates[i]);
        assert forall|k: int, j: int|
            #![trigger rest[k], rest[j]]
            0 <= k < j < rest.len() implies rest[k].name != rest[j].name by {
            assert(rest[k] == rates[k + 1] && rest[j] == rates[j + 1]);
        }
        lemma_counter_named(rest, i - 1);
        assert(rates[0].name != rates[i].name);
    }
}

/// A buffer keeps the newest 300 samples in order: a new one comes last, and the
/// oldest leaves a full buffer.
pub proof fn law_buffer_keeps_the_newest(rows: Seq<RowView>, t: RowView)
    ensures
        with_sample(rows, t).len() > 0,
        with_sample(rows, t).last() == t,
        rows.len() < 300 ==> with_sample(rows, t).drop_last() == rows,
        rows.len() >= 300 ==> with_sample(rows, t).drop_last() == rows.drop_first(),
{
    assert(rows.push(t).drop_last() =~= rows);
    assert(rows.drop_first().push(t).drop_last() =~= rows.drop_first());
}

/// A row enters the buffer of its own key and no other; a key without a buffer
/// gets one.
pub proof fn law_row_enters_its_own_buffer(s: Seq<BufferView>, t: RowView)
    requires
        keys_unique(s),
    ensures
        forall|i: int|
            0 <= i < s.len() ==> #[trigger] with_row(s, t)[i] == (if s[i].key == rows::row_key(t) {
                BufferView { key: s[i].key, rows: with_sample(s[i].rows, t) }
            } else {
                s[i]
            }),
        (forall|i: int| 0 <= i < s.len() ==> (#[trigger] s[i]).key != rows::row_key(t)) ==> with_row(
            s,
            t,
        ).len() == s.len() + 1 && with_row(s, t).last() == (BufferView {
            key: rows::row_key(t),
            rows: seq![t],
        }),
        (exists|i: int| 0 <= i < s.len() && (#[trigger] s[i]).key == rows::row_key(t)) ==> with_row(
            s,
            t,
        ).len() == s.len(),
{
    let key = rows::row_key(t);
    lemma_buffer_index(s, key);
    if let Some(k) = buffer_index(s, key) {
        assert forall|i: int| 0 <= i < s.len() implies #[trigger] with_row(s, t)[i] == (
        if s[i].key == key {
            BufferView { key: s[i].key, rows: with_sample(s[i].rows, t) }
        } else {
            s[i]
        }) by {
            if i != k && s[i].key == key {
                if i < k {
                    assert(s[i].key != s[k].key);
                } else {
                    assert(s[k].key != s[i].key);
                }
            }
        }
    }
}

/// The rows of a refresh enter one after the other.
pub proof fn law_rows_enter_one_by_one(s: Seq<BufferView>, rows: Seq<RowView>, t: RowView)
    ensures
        with_rows(s, seq![]) == s,
        with_rows(s, rows.push(t)) == with_row(with_rows(s, rows), t),
{
    assert(rows.push(t).drop_last() =~= rows);
}

/// Buffers of rows that are still there are kept as they are, in order; the
/// others are dropped.
pub proof fn law_refresh_drops_only_the_gone(
    a: Seq<BufferView>,
    b: Seq<BufferView>,
    rows: Seq<RowView>,
    x: BufferView,
)
    ensures
        kept(a + b, rows) == kept(a, rows) + kept(b, rows),
        (exists|i: int| 0 <= i < rows.len() && rows::row_key(#[trigger] rows[i]) == x.key) ==> kept(
            seq![x],
            rows,
        ) == seq![x],
        (forall|i: int| 0 <= i < rows.len() ==> rows::row_key(#[trigger] rows[i]) != x.key) ==> kept(
            seq![x],
            rows,
        ).len() == 0,
    decreases b.len(),
{
    assert(seq![x].drop_last() =~= seq![]);
    assert(kept(seq![], rows) =~= seq![]);
    if has_key(rows, x.key) {
        assert(kept(seq![x], rows) =~= seq![x]);
    }
    if b.len() == 0 {
        assert(a + b =~= a);
        assert(kept(b, rows) =~= seq![]);
    } else {
        law_refresh_drops_only_the_gone(a, b.drop_last(), rows, x);
        assert((a + b).drop_last() =~= a + b.drop_last());
        assert((a + b).last() == b.last());
    }
    assert(kept(a + b, rows) =~= kept(a, rows) + kept(b, rows));
}

/// The window holds the newest samples, as many as it has seconds or all there
/// are.
pub proof fn law_window_holds_the_newest(rows: Seq<RowView>, window_secs: int, i: int)
    requires
        1 <= window_secs,
    ensures
        window_of(rows, window_secs).len() == (if rows.len() <= window_secs {
            rows.len() as int
        } else {
            window_secs
        }),
        0 <= i < window_of(rows, window_secs).len() ==> window_of(rows, window_secs)[i]
            == rows[rows.len() - window_of(rows, window_secs).len() + i],
{
}

/// `rates[k]` has the name, and no counter before it has.
pub open spec fn is_first_rate(rates: Seq<CounterRateView>, k: int, name: Seq<char>) -> bool {
    &&& 0 <= k < rates.len()
    &&& rates[k].name == name
    &&& forall|j: int| 0 <= j < k ==> (#[trigger] rates[j]).name != name
}

/// A counter is found in a row by its name.
pub proof fn law_rate_is_found_by_name(rates: Seq<CounterRateView>, name: Seq<char>, k: int)
    ensures
        is_first_rate(rates, k, name) ==> counter_named(rates, name) == Some(rates[k]),
        (forall|j: int| 0 <= j < rates.len() ==> (#[trigger] rates[j]).name != name)
            ==> counter_named(rates, name) is None,
    decreases rates.len(),
{
    if rates.len() > 0 && rates[0].name != name {
        let rest = rates.drop_first();
        law_rate_is_found_by_name(rest, name, k - 1);
        if is_first_rate(rates, k, name) {
            assert forall|j: int| 0 <= j < k - 1 implies (#[trigger] rest[j]).name != name by {
                assert(rates[j + 1].name != name);
            }
        }
        if forall|j: int| 0 <= j < rates.len() ==> (#[trigger] rates[j]).name != name {
            assert forall|j: int| 0 <= j < rest.len() implies (#[trigger] rest[j]).name
                != name by {
                assert(rates[j + 1].name != name);
            }
        }
    }
}

/// The samples that have a counter are gathered in order, one for each row that
/// has it, and their advances add up.
pub proof fn law_counter_samples_add_up(
    a: Seq<RowView>,
    b: Seq<RowView>,
    t: RowView,
    name: Seq<char>,
    k: int,
)
    ensures
        present_in(a + b, name) == present_in(a, name) + present_in(b, name),
        is_first_rate(t.counter_rates, k, name) ==> present_in(seq![t], name) == seq![
            t.counter_rates[k],
        ],
        (forall|j: int| 0 <= j < t.counter_rates.len() ==> (#[trigger] t.counter_rates[j]).name
            != name) ==> present_in(seq![t], name).len() == 0,
    decreases b.len(),
{
    law_rate_is_found_by_name(t.counter_rates, name, k);
    assert(seq![t].drop_last() =~= seq![]);
    assert(present_in(seq![], name) =~= seq![]);
    if is_first_rate(t.counter_rates, k, name) {
        assert(present_in(seq![t], name) =~= seq![t.counter_rates[k]]);
    }
    if b.len() == 0 {
        assert(a + b =~= a);
        assert(present_in(b, name) =~= seq![]);
    } else {
        law_counter_samples_add_up(a, b.drop_last(), t, name, k);
        assert((a + b).drop_last() =~= a + b.drop_last());
        assert((a + b).last() == b.last());
    }
    assert(present_in(a + b, name) =~= present_in(a, name) + present_in(b, name));
}

/// Advances add up over lists of samples.
pub proof fn law_advances_add_up(
    a: Seq<CounterRateView>,
    b: Seq<CounterRateView>,
    c: CounterRateView,
)
    ensures
        delta_sum(a + b) == delta_sum(a) + delta_sum(b),
        delta_sum(seq![c]) == c.delta,
        0 <= delta_sum(a) <= u64::MAX * a.len(),
    decreases a.len() + b.len(),
{
    assert(seq![c].drop_last() =~= seq![]);
    assert(delta_sum(seq![]) == 0);
    if a.len() > 0 {
        law_advances_add_up(a.drop_last(), seq![], c);
        assert(u64::MAX * a.len() == u64::MAX * (a.len() - 1) + u64::MAX) by (nonlinear_arith);
    }
    if b.len() == 0 {
        assert(a + b =~= a);
    } else {
        law_advances_add_up(a, b.drop_last(), c);
        assert((a + b).drop_last() =~= a + b.drop_last());
        assert((a + b).last() == b.last());
    }
}

/// An averaged counter keeps its name and kind, shows the newest value in the
/// window, and its advance is the mean of the samples that have it, rounded
/// down.
pub proof fn law_averaged_counter(cr: CounterRateView, window: Seq<RowView>)
    ensures
        counter_average(cr, window).name == cr.name,
        counter_average(cr, window).is_bytes == cr.is_bytes,
        present_in(window, cr.name).len() == 0 ==> counter_average(cr, window).value == cr.value
            && counter_average(cr, window).delta == 0,
        present_in(window, cr.name).len() > 0 ==> {
            let present = present_in(window, cr.name);
            let n = present.len() as int;
            &&& counter_average(cr, window).value == present.last().value
            &&& counter_average(cr, window).delta * n <= delta_sum(present)
            &&& delta_sum(present) < (counter_average(cr, window).delta + 1) * n
        },
{
    let present = present_in(window, cr.name);
    if present.len() > 0 {
        law_advances_add_up(present, seq![], cr);
        let n = present.len() as int;
        let sum = delta_sum(present);
        let max = u64::MAX as int;
        assert(0 <= sum / n <= max) by (nonlinear_arith)
            requires
                0 <= sum <= max * n,
                n > 0,
        ;
        assert((sum / n) * n <= sum < (sum / n + 1) * n) by (nonlinear_arith)
            requires
                n > 0,
        ;
    }
}

/// An averaged row is the newest row of its window in everything but the
/// figures, and has all its counters in order.
pub proof fn law_average_describes_the_newest(window: Seq<RowView>)
    requires
        window.len() > 0,
    ensures
        average_of(window).dev_name == window.last().dev_name,
        average_of(window).port == window.last().port,
        average_of(window).link_mbps == window.last().link_mbps,
        average_of(window).port_label == window.last().port_label,
        average_of(window).nvlink == window.last().nvlink,
        average_of(window).xgmi == window.last().xgmi,
        average_of(window).class == window.last().class,
        average_of(window).counter_rates.len() == window.last().counter_rates.len(),
        forall|i: int|
            0 <= i < window.last().counter_rates.len() ==> #[trigger] average_of(
                window,
            ).counter_rates[i] == counter_average(window.last().counter_rates[i], window),
{
}

/// Every buffer that holds samples gives one averaged row, in order.
pub proof fn law_each_buffer_gives_one_row(
    a: Seq<BufferView>,
    b: Seq<BufferView>,
    x: BufferView,
    window_secs: int,
)
    ensures
        averages_of(a + b, window_secs) == averages_of(a, window_secs) + averages_of(
            b,
            window_secs,
        ),
        x.rows.len() > 0 ==> averages_of(seq![x], window_secs) == seq![
            average_of(window_of(x.rows, window_secs)),
        ],
        x.rows.len() == 0 ==> averages_of(seq![x], window_secs).len() == 0,
    decreases b.len(),
{
    assert(seq![x].drop_last() =~= seq![]);
    assert(averages_of(seq![], window_secs) =~= seq![]);
    if x.rows.len() > 0 {
        assert(averages_of(seq![x], window_secs) =~= seq![
            average_of(window_of(x.rows, window_secs)),
        ]);
    }
    if b.len() == 0 {
        assert(a + b =~= a);
        assert(averages_of(b, window_secs) =~= seq![]);
    } else {
        law_each_buffer_gives_one_row(a, b.drop_last(), x, window_secs);
        assert((a + b).drop_last() =~= a + b.drop_last());
        assert((a + b).last() == b.last());
    }
    assert(averages_of(a + b, window_secs) =~= averages_of(a, window_secs) + averages_of(
        b,
        window_secs,
    ));
}

/// The number of samples in use is that of the fullest window.
pub proof fn law_fullest_window_counts(s: Seq<BufferView>, window_secs: int)
    requires
        s.len() > 0,
    ensures
        forall|i: int|
            0 <= i < s.len() ==> window_of((#[trigger] s[i]).rows, window_secs).len()
                <= most_samples(s, window_secs),
        exists|i: int|
            0 <= i < s.len() && window_of((#[trigger] s[i]).rows, window_secs).len()
                == most_samples(s, window_secs),
    decreases s.len(),
{
    let front = s.drop_last();
    let n = s.len() - 1;
    assert(s.last() == s[n]);
    if front.len() > 0 {
        law_fullest_window_counts(front, window_secs);
        let k = choose|k: int|
            0 <= k < front.len() && window_of((#[trigger] front[k]).rows, window_secs).len()
                == most_samples(front, window_secs);
        assert(front[k] == s[k]);
        assert forall|i: int| 0 <= i < s.len() implies window_of(
            (#[trigger] s[i]).rows,
            window_secs,
        ).len() <= most_samples(s, window_secs) by {
            if i < n {
                assert(front[i] == s[i]);
            }
        }
        if window_of(s.last().rows, window_secs).len() > most_samples(front, window_secs) {
            assert(window_of(s[n].rows, window_secs).len() == most_samples(s, window_secs));
        } else {
            assert(window_of(s[k].rows, window_secs).len() == most_samples(s, window_secs));
        }
    } else {
        assert(most_samples(front, window_secs) == 0);
        assert(window_of(s[n].rows, window_secs).len() == most_samples(s, window_secs));
    }
}

/// What a value holds is what its fields hold, each under its own name.
pub proof fn law_views_hold_every_field(
    sample_buffer: SampleBuffer,
    rolling_avg_state: RollingAvgState,
)
    ensures
        sample_buffer@.key == sample_buffer.key@,
        sample_buffer@.rows == lists::views(sample_buffer.rows@),
        rolling_avg_state@.samples == lists::views(rolling_avg_state.samples@),
        rolling_avg_state@.window_secs == rolling_avg_state.window_secs as int,
{
}

} // verus!
