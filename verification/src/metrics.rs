//! Rates between two counter readings.
//!
//! A rate is kept as what was counted and the time it took, so nothing is
//! rounded before it is shown.

use vstd::prelude::*;

use crate::lists;
use crate::stat;
use crate::stat::{HwCounterView, PortStat, PortStatView};
use crate::text;
use crate::trace::{PortMetrics, PortMetricsView};

verus! {

/// One second, the span that a first reading is taken to cover.
pub const SECOND_NS: u64 = 1_000_000_000;

/// A count over a span of time.
#[derive(Clone, Copy, Debug, PartialEq, Eq, Structural)]
pub struct Rate {
    pub delta: u64,
    pub elapsed_ns: u64,
}

/// No count at all.
pub open spec fn no_rate() -> Rate {
    Rate { delta: 0, elapsed_ns: SECOND_NS }
}

/// A rate, or the mean of some means, each of which counts once; the mean of
/// none is zero.
#[derive(Debug)]
pub enum Mean {
    One(Rate),
    Of(Vec<Mean>),
}

/// What a mean holds.
#[verifier::ext_equal]
pub enum MeanView {
    One(Rate),
    Of(Seq<MeanView>),
}

/// The contents of a mean, part by part.
pub open spec fn mean_view(m: Mean) -> MeanView
    decreases m,
{
    match m {
        Mean::One(r) => MeanView::One(r),
        Mean::Of(parts) => MeanView::Of(
            Seq::new(
                parts@.len(),
                |i: int|
                    if 0 <= i < parts@.len() {
                        mean_view(parts@[i])
                    } else {
                        MeanView::One(no_rate())
                    },
            ),
        ),
    }
}

impl View for Mean {
    type V = MeanView;

    open spec fn view(&self) -> MeanView {
        mean_view(*self)
    }
}

proof fn lemma_parts(m: Mean)
    ensures
        match m {
            Mean::One(r) => m@ == MeanView::One(r),
            Mean::Of(parts) => m@ == MeanView::Of(lists::views(parts@)),
        },
{
    if let Mean::Of(parts) = m {
        assert(m@->Of_0 =~= lists::views(parts@));
    }
}

impl Clone for Mean {
    fn clone(&self) -> (r: Self)
        ensures
            r@ == self@,
    {
        self.copy()
    }
}

impl Mean {
    fn copy(&self) -> (r: Mean)
        ensures
            r@ == self@,
        decreases self,
    {
        proof {
            lemma_parts(*self);
        }
        match self {
            Mean::One(rate) => Mean::One(*rate),
            Mean::Of(parts) => {
                let ghost all = lists::views(parts@);
                let mut out: Vec<Mean> = Vec::new();
                let mut i: usize = 0;
                assert(lists::views(out@) =~= all.take(0));
                while i < parts.len()
                    invariant
                        i <= parts.len(),
                        *self == Mean::Of(*parts),
                        all == lists::views(parts@),
                        lists::views(out@) == all.take(i as int),
                    decreases parts.len() - i,
                {
                    assert(decreases_to!(self => self->Of_0));
                    assert(decreases_to!(self => parts@[i as int]));
                    let part = parts[i].copy();
                    proof {
                        lists::lemma_views_push(out@, part);
                        text::lemma_take_step(all, i as int);
                        assert(all[i as int] == parts@[i as int]@);
                    }
                    out.push(part);
                    i += 1;
                }
                assert(all.take(all.len() as int) =~= all);
                let r = Mean::Of(out);
                proof {
                    lemma_parts(r);
                }
                r
            },
        }
    }

    /// A single rate.
    pub fn of(delta: u64, elapsed_ns: u64) -> (r: Self)
        ensures
            r@ == MeanView::One(Rate { delta, elapsed_ns }),
    {
        Mean::One(Rate { delta, elapsed_ns })
    }

    /// No count at all.
    pub fn zero() -> (r: Self)
        ensures
            r@ == MeanView::One(no_rate()),
    {
        Mean::of(0, SECOND_NS)
    }

    /// The mean of some means.
    pub fn average(parts: Vec<Mean>) -> (r: Self)
        ensures
            r@ == mean_of(lists::views(parts@)),
    {
        if parts.len() == 1 {
            assert(lists::views(parts@)[0] == parts@[0]@);
            parts[0].copy()
        } else {
            let r = Mean::Of(parts);
            proof {
                lemma_parts(r);
            }
            r
        }
    }
}

/// The mean of some means; that of a single one is the one.
pub open spec fn mean_of(parts: Seq<MeanView>) -> MeanView {
    if parts.len() == 1 {
        parts[0]
    } else {
        MeanView::Of(parts)
    }
}

/// A mean as a fraction: counts over nanoseconds.
pub open spec fn fraction(m: MeanView) -> (int, int)
    decreases m,
{
    match m {
        MeanView::One(r) => (r.delta as int, r.elapsed_ns as int),
        MeanView::Of(parts) => if parts.len() == 0 {
            (0, 1)
        } else {
            (fraction_sum(parts).0, fraction_sum(parts).1 * parts.len())
        },
    }
}

/// The fractions of some means added up.
pub open spec fn fraction_sum(parts: Seq<MeanView>) -> (int, int)
    decreases parts,
{
    if parts.len() == 0 {
        (0, 1)
    } else {
        let sum = fraction_sum(parts.drop_last());
        let last = fraction(parts[parts.len() - 1]);
        (sum.0 * last.1 + last.0 * sum.1, sum.1 * last.1)
    }
}

/// The mean of some means is their sum divided by their number: each counts
/// once, whatever it is itself a mean of.
pub proof fn law_each_part_counts_once(parts: Seq<MeanView>)
    requires
        parts.len() > 0,
    ensures
        fraction(mean_of(parts)) == (fraction_sum(parts).0, fraction_sum(parts).1 * parts.len()),
{
    if parts.len() == 1 {
        assert(fraction_sum(parts.drop_last()) == (0int, 1int));
    }
}

/// Whether a mean has a value: no rate in it is nothing over no time.
pub open spec fn has_value(m: MeanView) -> bool
    decreases m,
{
    match m {
        MeanView::One(r) => r.delta > 0 || r.elapsed_ns > 0,
        MeanView::Of(parts) => forall|i: int|
            0 <= i < parts.len() ==> has_value(#[trigger] parts[i]),
    }
}

/// Whether some rate in a mean counts something.
pub open spec fn counts(m: MeanView) -> bool
    decreases m,
{
    match m {
        MeanView::One(r) => r.delta > 0,
        MeanView::Of(parts) => exists|i: int|
            0 <= i < parts.len() && counts(#[trigger] parts[i]),
    }
}

/// Whether a mean is above zero.
pub open spec fn above_zero(m: MeanView) -> bool {
    counts(m) && has_value(m)
}

/// Whether the sum of some means is above zero.
pub open spec fn sum_above_zero(means: Seq<MeanView>) -> bool {
    &&& exists|i: int| 0 <= i < means.len() && above_zero(#[trigger] means[i])
    &&& forall|i: int| 0 <= i < means.len() ==> has_value(#[trigger] means[i])
}

impl Mean {
    /// Tests whether the mean has a value.
    pub fn is_value(&self) -> (r: bool)
        ensures
            r == has_value(self@),
        decreases self,
    {
        proof {
            lemma_parts(*self);
        }
        match self {
            Mean::One(rate) => rate.delta > 0 || rate.elapsed_ns > 0,
            Mean::Of(parts) => {
                let ghost all = lists::views(parts@);
                let mut i: usize = 0;
                while i < parts.len()
                    invariant
                        i <= parts.len(),
                        *self == Mean::Of(*parts),
                        self@ == MeanView::Of(all),
                        all == lists::views(parts@),
                        forall|k: int| 0 <= k < i ==> has_value(#[trigger] all[k]),
                    decreases parts.len() - i,
                {
                    assert(decreases_to!(self => parts@[i as int]));
                    assert(all[i as int] == parts@[i as int]@);
                    if !parts[i].is_value() {
                        assert(!has_value(self@->Of_0[i as int]));
                        return false;
                    }
                    i += 1;
                }
                true
            },
        }
    }

    fn has_count(&self) -> (r: bool)
        ensures
            r == counts(self@),
        decreases self,
    {
        proof {
            lemma_parts(*self);
        }
        match self {
            Mean::One(rate) => rate.delta > 0,
            Mean::Of(parts) => {
                let ghost all = lists::views(parts@);
                let mut i: usize = 0;
                while i < parts.len()
                    invariant
                        i <= parts.len(),
                        *self == Mean::Of(*parts),
                        self@ == MeanView::Of(all),
                        all == lists::views(parts@),
                        forall|k: int| 0 <= k < i ==> !counts(#[trigger] all[k]),
                    decreases parts.len() - i,
                {
                    assert(decreases_to!(self => parts@[i as int]));
                    assert(all[i as int] == parts@[i as int]@);
                    if parts[i].has_count() {
                        assert(counts(self@->Of_0[i as int]));
                        return true;
                    }
                    i += 1;
                }
                false
            },
        }
    }

    /// Tests whether the mean is above zero.
    pub fn is_above_zero(&self) -> (r: bool)
        ensures
            r == above_zero(self@),
    {
        self.has_count() && self.is_value()
    }
}

/// Tests whether the sum of some means is above zero.
pub fn is_sum_above_zero(means: &[Mean]) -> (r: bool)
    ensures
        r == sum_above_zero(lists::views(means@)),
{
    let ghost all = lists::views(means@);
    let mut some = false;
    let mut i: usize = 0;
    while i < means.len()
        invariant
            i <= means.len(),
            all == lists::views(means@),
            some == exists|k: int| 0 <= k < i && above_zero(#[trigger] all[k]),
            forall|k: int| 0 <= k < i ==> has_value(#[trigger] all[k]),
        decreases means.len() - i,
    {
        assert(all[i as int] == means@[i as int]@);
        if !means[i].is_value() {
            return false;
        }
        if means[i].is_above_zero() {
            some = true;
        }
        i += 1;
    }
    some
}

/// A number to be shown.
#[derive(Debug)]
pub enum Figure {
    /// Bytes per second, shown as gigabits per second.
    Gbps(Mean),
    /// A rate per second.
    PerSec(Mean),
}

/// What a number to be shown holds.
pub enum FigureView {
    Gbps(MeanView),
    PerSec(MeanView),
}

impl View for Figure {
    type V = FigureView;

    open spec fn view(&self) -> FigureView {
        match self {
            Figure::Gbps(m) => FigureView::Gbps(m@),
            Figure::PerSec(m) => FigureView::PerSec(m@),
        }
    }
}

/// A counter with its change since the reading before.
#[derive(Debug)]
pub struct CounterRate {
    pub name: String,
    pub value: u64,
    pub delta: u64,
    pub rate: Mean,
    pub is_bytes: bool,
}

/// What a counter rate holds.
#[verifier::ext_equal]
pub struct CounterRateView {
    pub name: Seq<char>,
    pub value: u64,
    pub delta: u64,
    pub rate: MeanView,
    pub is_bytes: bool,
}

impl View for CounterRate {
    type V = CounterRateView;

    open spec fn view(&self) -> CounterRateView {
        CounterRateView {
            name: self.name@,
            value: self.value,
            delta: self.delta,
            rate: self.rate@,
            is_bytes: self.is_bytes,
        }
    }
}

impl Clone for CounterRate {
    fn clone(&self) -> (r: Self)
        ensures
            r@ == self@,
    {
        CounterRate {
            name: self.name.clone(),
            value: self.value,
            delta: self.delta,
            rate: self.rate.clone(),
            is_bytes: self.is_bytes,
        }
    }
}

/// Whether a counter counts bytes, which its name tells.
pub open spec fn counts_bytes(name: Seq<char>) -> bool {
    text::has_suffix(name, "_bytes"@)
}

/// Tests whether a counter counts bytes.
pub fn is_bytes_counter(name: &str) -> (r: bool)
    ensures
        r == counts_bytes(name@),
{
    text::ends_with(name, "_bytes")
}

/// How far a counter has advanced; one that went back has not.
pub open spec fn advance(curr: u64, prev: u64) -> u64 {
    if curr >= prev {
        (curr - prev) as u64
    } else {
        0
    }
}

/// The value that a counter is compared with: that of the reading before, or
/// zero where it had none.
pub open spec fn value_before(prev: Option<PortStatView>, name: Seq<char>) -> u64 {
    match prev {
        Some(p) => match stat::value_named(p.counters, name) {
            Some(v) => v,
            None => 0,
        },
        None => 0,
    }
}

/// The change of a counter since the reading before.
pub fn counter_delta(name: &str, curr_val: u64, prev: Option<&PortStat>) -> (r: u64)
    ensures
        r == advance(curr_val, value_before(lists::opt_view(prev), name@)),
{
    let prev_val: u64 = match prev {
        Some(p) => match p.counter_value(name) {
            Some(v) => v,
            None => 0,
        },
        None => 0,
    };
    curr_val.saturating_sub(prev_val)
}

/// The rate of one counter.
pub open spec fn rate_of(
    c: HwCounterView,
    prev: Option<PortStatView>,
    elapsed_ns: u64,
) -> CounterRateView {
    let delta = advance(c.value, value_before(prev, c.name));
    CounterRateView {
        name: c.name,
        value: c.value,
        delta,
        rate: MeanView::One(Rate { delta, elapsed_ns }),
        is_bytes: counts_bytes(c.name),
    }
}

/// Computes the rate of one counter.
pub fn compute_counter_rate(
    counter_name: &str,
    curr_val: u64,
    prev: Option<&PortStat>,
    elapsed_ns: u64,
) -> (r: CounterRate)
    ensures
        r@ == rate_of(
            HwCounterView { name: counter_name@, value: curr_val },
            lists::opt_view(prev),
            elapsed_ns,
        ),
{
    let delta: u64 = counter_delta(counter_name, curr_val, prev);
    CounterRate {
        name: counter_name.to_owned(),
        value: curr_val,
        delta,
        rate: Mean::of(delta, elapsed_ns),
        is_bytes: is_bytes_counter(counter_name),
    }
}

/// The rate of the counter with a name; one that is missing counts nothing.
pub open spec fn named_rate(
    curr: PortStatView,
    prev: Option<PortStatView>,
    name: Seq<char>,
    elapsed_ns: u64,
) -> MeanView {
    let value = match stat::value_named(curr.counters, name) {
        Some(v) => v,
        None => 0,
    };
    MeanView::One(Rate { delta: advance(value, value_before(prev, name)), elapsed_ns })
}

/// Computes the rate of the counter with a name.
pub fn rate_per_sec(
    curr: &PortStat,
    prev: Option<&PortStat>,
    name: &str,
    elapsed_ns: u64,
) -> (r: Mean)
    ensures
        r@ == named_rate(curr@, lists::opt_view(prev), name@, elapsed_ns),
{
    let curr_val: u64 = match curr.counter_value(name) {
        Some(v) => v,
        None => 0,
    };
    Mean::of(counter_delta(name, curr_val, prev), elapsed_ns)
}

/// The first snapshot of a port.
pub open spec fn stat_at(prev: Seq<PortStatView>, dev: Seq<char>, port: u32) -> Option<PortStatView>
    decreases prev.len(),
{
    if prev.len() == 0 {
        None
    } else if prev[0].dev_name == dev && prev[0].port == port {
        Some(prev[0])
    } else {
        stat_at(prev.drop_first(), dev, port)
    }
}

/// Finds the snapshot of a port.
pub fn find_prev<'a>(prev: &'a [PortStat], dev: &str, port: u32) -> (r: Option<&'a PortStat>)
    ensures
        lists::opt_view(r) == stat_at(lists::views(prev@), dev@, port),
{
    let ghost all = lists::views(prev@);
    let mut i: usize = 0;
    assert(all.skip(0) =~= all);
    while i < prev.len()
        invariant
            i <= prev.len(),
            all == lists::views(prev@),
            stat_at(all, dev@, port) == stat_at(all.skip(i as int), dev@, port),
        decreases prev.len() - i,
    {
        assert(all.skip(i as int)[0] == prev@[i as int]@);
        if text::same(prev[i].dev_name.as_str(), dev) && prev[i].port == port {
            return Some(&prev[i]);
        }
        assert(all.skip(i as int).drop_first() =~= all.skip(i + 1));
        i += 1;
    }
    None
}

/// The rates of all counters of a port.
pub open spec fn rates_of(curr: PortStatView, prev: Option<PortStatView>, elapsed_ns: u64) -> Seq<
    CounterRateView,
> {
    Seq::new(curr.counters.len(), |i: int| rate_of(curr.counters[i], prev, elapsed_ns))
}

/// Computes the rates of all counters of a port.
pub fn counter_rates(curr: &PortStat, prev: Option<&PortStat>, elapsed_ns: u64) -> (r: Vec<
    CounterRate,
>)
    ensures
        lists::views(r@) == rates_of(curr@, lists::opt_view(prev), elapsed_ns),
{
    let ghost goal = rates_of(curr@, lists::opt_view(prev), elapsed_ns);
    let mut out: Vec<CounterRate> = Vec::new();
    let mut i: usize = 0;
    assert(lists::views(out@) =~= goal.take(0));
    while i < curr.counters.len()
        invariant
            i <= curr.counters.len(),
            goal == rates_of(curr@, lists::opt_view(prev), elapsed_ns),
            lists::views(out@) == goal.take(i as int),
        decreases curr.counters.len() - i,
    {
        let c = &curr.counters[i];
        let rate = compute_counter_rate(c.name.as_str(), c.value, prev, elapsed_ns);
        proof {
            lists::lemma_views_push(out@, rate);
            text::lemma_take_step(goal, i as int);
            assert(curr@.counters[i as int] == c@);
        }
        out.push(rate);
        i += 1;
    }
    assert(goal.take(goal.len() as int) =~= goal);
    out
}

/// The five figures recorded for a port.
pub open spec fn metrics_of(
    curr: PortStatView,
    prev: Option<PortStatView>,
    elapsed_ns: u64,
) -> PortMetricsView {
    PortMetricsView {
        dev_name: curr.dev_name,
        port: curr.port,
        tx_bytes: named_rate(curr, prev, "tx_bytes"@, elapsed_ns),
        rx_bytes: named_rate(curr, prev, "rx_bytes"@, elapsed_ns),
        tx_pkts: named_rate(curr, prev, "tx_pkts"@, elapsed_ns),
        rx_pkts: named_rate(curr, prev, "rx_pkts"@, elapsed_ns),
        rx_drops: named_rate(curr, prev, "rx_drops"@, elapsed_ns),
    }
}

/// Computes the five figures recorded for a port.
pub fn port_metrics(curr: &PortStat, prev: Option<&PortStat>, elapsed_ns: u64) -> (r: PortMetrics)
    ensures
        r@ == metrics_of(curr@, lists::opt_view(prev), elapsed_ns),
{
    PortMetrics {
        dev_name: curr.dev_name.clone(),
        port: curr.port,
        tx_bytes: rate_per_sec(curr, prev, "tx_bytes", elapsed_ns),
        rx_bytes: rate_per_sec(curr, prev, "rx_bytes", elapsed_ns),
        tx_pkts: rate_per_sec(curr, prev, "tx_pkts", elapsed_ns),
        rx_pkts: rate_per_sec(curr, prev, "rx_pkts", elapsed_ns),
        rx_drops: rate_per_sec(curr, prev, "rx_drops", elapsed_ns),
    }
}

/// The figures of a port that the reading before also has.
pub open spec fn since_baseline(
    prev: Seq<PortStatView>,
    curr: PortStatView,
    elapsed_ns: u64,
) -> Option<PortMetricsView> {
    match stat_at(prev, curr.dev_name, curr.port) {
        Some(baseline) => Some(metrics_of(curr, Some(baseline), elapsed_ns)),
        None => None,
    }
}

/// Computes the figures of a port against its baseline; none without one.
pub fn rates_since_baseline(prev: &[PortStat], curr: &PortStat, elapsed_ns: u64) -> (r: Option<
    PortMetrics,
>)
    ensures
        lists::opt_view(r) == since_baseline(lists::views(prev@), curr@, elapsed_ns),
{
    match find_prev(prev, curr.dev_name.as_str(), curr.port) {
        Some(baseline) => Some(port_metrics(curr, Some(baseline), elapsed_ns)),
        None => None,
    }
}

/// The figures of every port that both readings have, in the order of the
/// later one.
pub open spec fn between(
    prev: Seq<PortStatView>,
    curr: Seq<PortStatView>,
    elapsed_ns: u64,
) -> Seq<PortMetricsView>
    decreases curr.len(),
{
    if curr.len() == 0 {
        seq![]
    } else {
        let before = between(prev, curr.drop_last(), elapsed_ns);
        match since_baseline(prev, curr.last(), elapsed_ns) {
            Some(m) => before.push(m),
            None => before,
        }
    }
}

/// Computes the figures of every port that both readings have.
pub fn rates_between(prev: &[PortStat], curr: &[PortStat], elapsed_ns: u64) -> (r: Vec<PortMetrics>)
    ensures
        lists::views(r@) == between(lists::views(prev@), lists::views(curr@), elapsed_ns),
{
    let ghost before = lists::views(prev@);
    let ghost all = lists::views(curr@);
    let mut out: Vec<PortMetrics> = Vec::new();
    let mut i: usize = 0;
    assert(lists::views(out@) =~= between(before, all.take(0), elapsed_ns));
    while i < curr.len()
        invariant
            i <= curr.len(),
            before == lists::views(prev@),
            all == lists::views(curr@),
            lists::views(out@) == between(before, all.take(i as int), elapsed_ns),
        decreases curr.len() - i,
    {
        proof {
            text::lemma_take_step(all, i as int);
            assert(all[i as int] == curr@[i as int]@);
        }
        if let Some(m) = rates_since_baseline(prev, &curr[i], elapsed_ns) {
            proof {
                lists::lemma_views_push(out@, m);
            }
            out.push(m);
        }
        i += 1;
    }
    assert(all.take(all.len() as int) =~= all);
    out
}

/// A reading compared with itself counts nothing.
pub proof fn law_same_reading_counts_nothing(curr: PortStatView, elapsed_ns: u64, i: int)
    requires
        0 <= i < curr.counters.len(),
        stat::value_named(curr.counters, curr.counters[i].name) == Some(curr.counters[i].value),
    ensures
        rates_of(curr, Some(curr), elapsed_ns)[i].delta == 0,
{
}

/// A rate counts no more than the counter shows, and what a counter that did
/// not go back has advanced brings the earlier value up to the later one.
pub proof fn law_delta_bounds(c: HwCounterView, prev: Option<PortStatView>, elapsed_ns: u64)
    ensures
        rate_of(c, prev, elapsed_ns).delta <= c.value,
        c.value >= value_before(prev, c.name) ==> value_before(prev, c.name) + rate_of(
            c,
            prev,
            elapsed_ns,
        ).delta == c.value,
        c.value < value_before(prev, c.name) ==> rate_of(c, prev, elapsed_ns).delta == 0,
{
}

/// Whether a figure is what a counter advanced between two values, over a span
/// of time; a counter that went back counts nothing.
pub open spec fn measures(m: MeanView, later: u64, earlier: u64, elapsed_ns: u64) -> bool {
    match m {
        MeanView::One(r) => {
            &&& r.elapsed_ns == elapsed_ns
            &&& later >= earlier ==> earlier + r.delta == later
            &&& later < earlier ==> r.delta == 0
        },
        MeanView::Of(_) => false,
    }
}

/// Whether a counter of a reading has the value: that of the first counter with
/// the name, 0 where no counter has it.
pub open spec fn shows(s: PortStatView, name: Seq<char>, value: u64) -> bool {
    ||| exists|k: int|
        stat::is_first(s.counters, k, name) && value == (#[trigger] s.counters[k]).value
    ||| stat::uncounted(s.counters, name) && value == 0
}

proof fn lemma_shows(s: PortStatView, name: Seq<char>, value: u64)
    requires
        shows(s, name, value),
    ensures
        value == value_before(Some(s), name),
{
    stat::law_counter_is_found_by_name(s.counters, name, 0);
    if !stat::uncounted(s.counters, name) {
        let k = choose|k: int|
            stat::is_first(s.counters, k, name) && value == (#[trigger] s.counters[k]).value;
        stat::law_counter_is_found_by_name(s.counters, name, k);
    }
}

/// The five figures of a port are the advances of the counters they are named
/// after, each of its own counter and of no other, over the time between the
/// readings; the port itself is that of the later reading.
pub proof fn law_each_figure_follows_its_counter(
    curr: PortStatView,
    prev: PortStatView,
    elapsed_ns: u64,
    name: Seq<char>,
    later: u64,
    earlier: u64,
)
    requires
        shows(curr, name, later),
        shows(prev, name, earlier),
    ensures
        metrics_of(curr, Some(prev), elapsed_ns).dev_name == curr.dev_name,
        metrics_of(curr, Some(prev), elapsed_ns).port == curr.port,
        name == "tx_bytes"@ ==> measures(
            metrics_of(curr, Some(prev), elapsed_ns).tx_bytes,
            later,
            earlier,
            elapsed_ns,
        ),
        name == "rx_bytes"@ ==> measures(
            metrics_of(curr, Some(prev), elapsed_ns).rx_bytes,
            later,
            earlier,
            elapsed_ns,
        ),
        name == "tx_pkts"@ ==> measures(
            metrics_of(curr, Some(prev), elapsed_ns).tx_pkts,
            later,
            earlier,
            elapsed_ns,
        ),
        name == "rx_pkts"@ ==> measures(
            metrics_of(curr, Some(prev), elapsed_ns).rx_pkts,
            later,
            earlier,
            elapsed_ns,
        ),
        name == "rx_drops"@ ==> measures(
            metrics_of(curr, Some(prev), elapsed_ns).rx_drops,
            later,
            earlier,
            elapsed_ns,
        ),
{
    lemma_shows(curr, name, later);
    lemma_shows(prev, name, earlier);
}

/// Every counter of a reading gets one rate, in order and under its name, with
/// its value and its advance since the reading before; counters whose names end
/// in `_bytes` count bytes.
pub proof fn law_each_counter_has_its_rate(
    curr: PortStatView,
    prev: PortStatView,
    elapsed_ns: u64,
    i: int,
    earlier: u64,
)
    requires
        0 <= i < curr.counters.len(),
        shows(prev, curr.counters[i].name, earlier),
    ensures
        rates_of(curr, Some(prev), elapsed_ns).len() == curr.counters.len(),
        rates_of(curr, Some(prev), elapsed_ns)[i].name == curr.counters[i].name,
        rates_of(curr, Some(prev), elapsed_ns)[i].value == curr.counters[i].value,
        measures(
            rates_of(curr, Some(prev), elapsed_ns)[i].rate,
            curr.counters[i].value,
            earlier,
            elapsed_ns,
        ),
        curr.counters[i].value >= earlier ==> earlier + rates_of(curr, Some(prev), elapsed_ns)[i].delta
            == curr.counters[i].value,
        curr.counters[i].value < earlier ==> rates_of(curr, Some(prev), elapsed_ns)[i].delta == 0,
        rates_of(curr, Some(prev), elapsed_ns)[i].is_bytes <==> exists|stem: Seq<char>|
            curr.counters[i].name == #[trigger] (stem + "_bytes"@),
{
    lemma_shows(prev, curr.counters[i].name, earlier);
    let name = curr.counters[i].name;
    let end = "_bytes"@;
    if text::has_suffix(name, end) {
        let stem = name.take(name.len() - end.len());
        assert(name =~= stem + end);
    }
    if exists|stem: Seq<char>| name == #[trigger] (stem + end) {
        let stem = choose|stem: Seq<char>| name == #[trigger] (stem + end);
        assert(name.skip(name.len() - end.len()) =~= end);
        assert(name.subrange(name.len() - end.len(), name.len() as int) =~= end);
    }
}

/// Without an earlier reading a counter has advanced by all that it shows.
pub proof fn law_first_reading_counts_from_zero(curr: PortStatView, elapsed_ns: u64, i: int)
    requires
        0 <= i < curr.counters.len(),
    ensures
        rates_of(curr, None, elapsed_ns)[i].delta == curr.counters[i].value,
        measures(
            rates_of(curr, None, elapsed_ns)[i].rate,
            curr.counters[i].value,
            0,
            elapsed_ns,
        ),
{
}

/// `prev[k]` is the port, and none before it is.
pub open spec fn is_first_port(prev: Seq<PortStatView>, k: int, dev: Seq<char>, port: u32) -> bool {
    &&& 0 <= k < prev.len()
    &&& prev[k].dev_name == dev && prev[k].port == port
    &&& forall|j: int|
        0 <= j < k ==> (#[trigger] prev[j]).dev_name != dev || prev[j].port != port
}

/// The port is not in the reading.
pub open spec fn no_such_port(prev: Seq<PortStatView>, dev: Seq<char>, port: u32) -> bool {
    forall|j: int|
        0 <= j < prev.len() ==> (#[trigger] prev[j]).dev_name != dev || prev[j].port != port
}

/// A port is found in a reading by device and number together.
pub proof fn law_port_is_found(prev: Seq<PortStatView>, dev: Seq<char>, port: u32, k: int)
    ensures
        is_first_port(prev, k, dev, port) ==> stat_at(prev, dev, port) == Some(prev[k]),
        no_such_port(prev, dev, port) <==> stat_at(prev, dev, port) is None,
    decreases prev.len(),
{
    if prev.len() > 0 && !(prev[0].dev_name == dev && prev[0].port == port) {
        let rest = prev.drop_first();
        law_port_is_found(rest, dev, port, k - 1);
        assert forall|j: int| 0 <= j < rest.len() implies #[trigger] rest[j] == prev[j + 1] by {}
        if is_first_port(prev, k, dev, port) {
            assert forall|j: int| 0 <= j < k - 1 implies (#[trigger] rest[j]).dev_name != dev
                || rest[j].port != port by {
                assert(prev[j + 1].dev_name != dev || prev[j + 1].port != port);
            }
        }
        if no_such_port(prev, dev, port) {
            assert forall|j: int| 0 <= j < rest.len() implies (#[trigger] rest[j]).dev_name != dev
                || rest[j].port != port by {
                assert(prev[j + 1].dev_name != dev || prev[j + 1].port != port);
            }
        }
        if no_such_port(rest, dev, port) {
            assert forall|j: int| 0 <= j < prev.len() implies (#[trigger] prev[j]).dev_name != dev
                || prev[j].port != port by {
                if j > 0 {
                    assert(rest[j - 1].dev_name != dev || rest[j - 1].port != port);
                }
            }
        }
    } else if prev.len() > 0 {
        assert(prev[0].dev_name == dev && prev[0].port == port);
    }
}

/// The ports of a reading are compared one by one with the same port of the
/// reading before, in order; one that the earlier reading lacks is left out.
pub proof fn law_ports_are_compared_one_by_one(
    prev: Seq<PortStatView>,
    a: Seq<PortStatView>,
    b: Seq<PortStatView>,
    c: PortStatView,
    elapsed_ns: u64,
    k: int,
)
    ensures
        between(prev, a + b, elapsed_ns) == between(prev, a, elapsed_ns) + between(
            prev,
            b,
            elapsed_ns,
        ),
        is_first_port(prev, k, c.dev_name, c.port) ==> between(prev, seq![c], elapsed_ns) == seq![
            metrics_of(c, Some(prev[k]), elapsed_ns),
        ],
        no_such_port(prev, c.dev_name, c.port) ==> between(prev, seq![c], elapsed_ns).len() == 0,
    decreases b.len(),
{
    law_port_is_found(prev, c.dev_name, c.port, k);
    assert(seq![c].drop_last() =~= seq![]);
    assert(between(prev, seq![], elapsed_ns) =~= seq![]);
    if is_first_port(prev, k, c.dev_name, c.port) {
        assert(between(prev, seq![c], elapsed_ns) =~= seq![
            metrics_of(c, Some(prev[k]), elapsed_ns),
        ]);
    }
    if b.len() == 0 {
        assert(a + b =~= a);
        assert(between(prev, b, elapsed_ns) =~= seq![]);
    } else {
        law_ports_are_compared_one_by_one(prev, a, b.drop_last(), c, elapsed_ns, k);
        assert((a + b).drop_last() =~= a + b.drop_last());
        assert((a + b).last() == b.last());
    }
    assert(between(prev, a + b, elapsed_ns) =~= between(prev, a, elapsed_ns) + between(
        prev,
        b,
        elapsed_ns,
    ));
}

/// Whether all five figures of a port are single rates over one span of time.
pub open spec fn all_over(p: PortMetricsView, elapsed_ns: u64) -> bool {
    &&& (p.tx_bytes matches MeanView::One(r) && r.elapsed_ns == elapsed_ns)
    &&& (p.rx_bytes matches MeanView::One(r) && r.elapsed_ns == elapsed_ns)
    &&& (p.tx_pkts matches MeanView::One(r) && r.elapsed_ns == elapsed_ns)
    &&& (p.rx_pkts matches MeanView::One(r) && r.elapsed_ns == elapsed_ns)
    &&& (p.rx_drops matches MeanView::One(r) && r.elapsed_ns == elapsed_ns)
}

/// Every rate between two readings is over the time between them.
pub proof fn law_rates_are_over_the_span(
    prev: Seq<PortStatView>,
    curr: Seq<PortStatView>,
    elapsed_ns: u64,
)
    ensures
        forall|i: int|
            0 <= i < between(prev, curr, elapsed_ns).len() ==> all_over(
                #[trigger] between(prev, curr, elapsed_ns)[i],
                elapsed_ns,
            ),
    decreases curr.len(),
{
    if curr.len() > 0 {
        law_rates_are_over_the_span(prev, curr.drop_last(), elapsed_ns);
        let before = between(prev, curr.drop_last(), elapsed_ns);
        let after = between(prev, curr, elapsed_ns);
        assert forall|i: int| 0 <= i < after.len() implies all_over(
            #[trigger] after[i],
            elapsed_ns,
        ) by {
            if i < before.len() {
                assert(after[i] == before[i]);
            }
        }
    }
}

/// What a value holds is what its fields hold, each under its own name.
pub proof fn law_views_hold_every_field(
    counter_rate: CounterRate,
)
    ensures
        counter_rate@.name == counter_rate.name@,
        counter_rate@.value == counter_rate.value,
        counter_rate@.delta == counter_rate.delta,
        counter_rate@.rate == counter_rate.rate@,
        counter_rate@.is_bytes == counter_rate.is_bytes,
{
}

/// A rate counts where something was counted, and only then is it above zero; a
/// mean of several counts where one of them does and each has a value.
pub proof fn law_rate_above_zero(r: Rate, parts: Seq<MeanView>)
    ensures
        above_zero(MeanView::One(r)) <==> r.delta > 0,
        counts(MeanView::One(r)) <==> r.delta > 0,
        has_value(MeanView::One(r)) <==> r.delta > 0 || r.elapsed_ns > 0,
        counts(MeanView::Of(parts)) <==> exists|i: int|
            0 <= i < parts.len() && counts(#[trigger] parts[i]),
        has_value(MeanView::Of(parts)) <==> forall|i: int|
            0 <= i < parts.len() ==> has_value(#[trigger] parts[i]),
        sum_above_zero(parts) <==> (exists|i: int|
            0 <= i < parts.len() && counts(#[trigger] parts[i])) && forall|i: int|
            0 <= i < parts.len() ==> has_value(#[trigger] parts[i]),
{
    let m = MeanView::Of(parts);
    if exists|i: int| 0 <= i < parts.len() && counts(#[trigger] parts[i]) {
        let i = choose|i: int| 0 <= i < parts.len() && counts(#[trigger] parts[i]);
        assert(counts(m->Of_0[i]));
        assert(counts(m));
    }
    if counts(m) {
        let i = choose|i: int| 0 <= i < m->Of_0.len() && counts(#[trigger] m->Of_0[i]);
        assert(counts(parts[i]));
    }
    if has_value(m) {
        assert forall|i: int| 0 <= i < parts.len() implies has_value(#[trigger] parts[i]) by {
            assert(has_value(m->Of_0[i]));
        }
    }
    if forall|i: int| 0 <= i < parts.len() ==> has_value(#[trigger] parts[i]) {
        assert forall|i: int| 0 <= i < m->Of_0.len() implies has_value(#[trigger] m->Of_0[i]) by {
            assert(has_value(parts[i]));
        }
        assert(has_value(m));
    }
    assert(sum_above_zero(parts) <==> (exists|i: int|
        0 <= i < parts.len() && counts(#[trigger] parts[i])) && forall|i: int|
        0 <= i < parts.len() ==> has_value(#[trigger] parts[i])) by {
        if sum_above_zero(parts) {
            let i = choose|i: int| 0 <= i < parts.len() && above_zero(#[trigger] parts[i]);
            assert(counts(parts[i]));
        }
        if (exists|i: int| 0 <= i < parts.len() && counts(#[trigger] parts[i])) && forall|i: int|
            0 <= i < parts.len() ==> has_value(#[trigger] parts[i]) {
            let i = choose|i: int| 0 <= i < parts.len() && counts(#[trigger] parts[i]);
            assert(above_zero(parts[i]));
        }
    }
}

/// The mean of one rate is the rate, and that of several keeps them all in
/// order.
pub proof fn law_mean_keeps_its_parts(parts: Seq<MeanView>)
    ensures
        parts.len() == 1 ==> mean_of(parts) == parts[0],
        parts.len() != 1 ==> mean_of(parts) == MeanView::Of(parts),
{
}

} // verus!
