//! The rules of the C interface: how its arguments are read and in what order
//! samples are handed out.

use vstd::prelude::*;

use crate::capture::{CaptureResult, CaptureResultView, CaptureSampleView};
use crate::lists;
use crate::metrics::{Figure, FigureView};
use crate::text;
use crate::trace::{PortMetrics, PortMetricsView};

verus! {

/// The shortest interval of a capture in microseconds.
pub const MIN_INTERVAL_US: u64 = 100;

/// The interval of a capture: what was asked for, but not below the shortest.
pub fn capture_interval_us(asked: u64) -> (r: u64)
    ensures
        r == (if asked < MIN_INTERVAL_US {
            MIN_INTERVAL_US
        } else {
            asked
        }),
{
    if asked < MIN_INTERVAL_US {
        MIN_INTERVAL_US
    } else {
        asked
    }
}

/// A message as a C string can hold it.
pub fn c_string(message: &str) -> (r: String)
    ensures
        r@ == text::replaced(message@, '\0', ' '),
{
    text::replace_char(message, '\0', ' ')
}

/// The entries of a list without surrounding white space.
pub open spec fn trimmed_all(v: Seq<Seq<char>>) -> Seq<Seq<char>> {
    Seq::new(v.len(), |i: int| text::trimmed(v[i]))
}

/// The device names of a comma-separated list, without white space around them
/// and without empty ones; no filter when none is left or no list is given.
pub open spec fn devices_of(csv: Option<Seq<char>>) -> Option<Seq<Seq<char>>> {
    match csv {
        None => None,
        Some(s) => {
            let names = text::nonempty(trimmed_all(text::pieces(s, Some(','))));
            if names.len() == 0 {
                None
            } else {
                Some(names)
            }
        },
    }
}

/// Reads a comma-separated list of device names.
pub fn devices_from_csv(csv: Option<&str>) -> (r: Option<Vec<String>>)
    ensures
        match r {
            Some(v) => devices_of(lists::opt_view(csv)) == Some(text::strings(v@)),
            None => devices_of(lists::opt_view(csv)) is None,
        },
{
    let s = match csv {
        Some(s) => s,
        None => {
            return None;
        },
    };
    let fields = text::split_pieces(s, Some(','));
    let ghost goal = trimmed_all(text::pieces(s@, Some(',')));
    let mut names: Vec<String> = Vec::new();
    let mut i: usize = 0;
    assert(text::strings(names@) =~= goal.take(0));
    while i < fields.len()
        invariant
            i <= fields.len(),
            text::strings(fields@) == text::pieces(s@, Some(',')),
            goal == trimmed_all(text::pieces(s@, Some(','))),
            text::strings(names@) == goal.take(i as int),
        decreases fields.len() - i,
    {
        let name = text::trim(fields[i].as_str());
        proof {
            text::lemma_take_step(goal, i as int);
            assert(text::strings(fields@)[i as int] == fields@[i as int]@);
        }
        let ghost before = text::strings(names@);
        names.push(name);
        assert(text::strings(names@) =~= before.push(goal[i as int]));
        i += 1;
    }
    assert(goal.take(goal.len() as int) =~= goal);
    let kept = text::drop_empty(names);
    assert(text::strings(kept@).len() == kept@.len());
    if kept.len() == 0 {
        None
    } else {
        Some(kept)
    }
}

/// The names of the five figures of a port, in order.
pub open spec fn metric_names() -> Seq<Seq<char>> {
    seq!["tx_gbps"@, "rx_gbps"@, "tx_pps"@, "rx_pps"@, "rx_drops_per_sec"@]
}

/// One figure handed to a callback.
#[derive(Debug)]
pub struct Emission {
    pub ts_ns: u64,
    pub dev: String,
    pub port: u32,
    pub metric: String,
    pub value: Figure,
}

/// What a figure handed to a callback holds.
pub struct EmissionView {
    pub ts_ns: u64,
    pub dev: Seq<char>,
    pub port: u32,
    pub metric: Seq<char>,
    pub value: FigureView,
}

impl View for Emission {
    type V = EmissionView;

    open spec fn view(&self) -> EmissionView {
        EmissionView {
            ts_ns: self.ts_ns,
            dev: self.dev@,
            port: self.port,
            metric: self.metric@,
            value: self.value@,
        }
    }
}

/// The figures of a port, in the order of their names.
pub open spec fn values_of(p: PortMetricsView) -> Seq<FigureView> {
    seq![
        FigureView::Gbps(p.tx_bytes),
        FigureView::Gbps(p.rx_bytes),
        FigureView::PerSec(p.tx_pkts),
        FigureView::PerSec(p.rx_pkts),
        FigureView::PerSec(p.rx_drops),
    ]
}

/// What is handed out for one port.
pub open spec fn port_emissions(ts_ns: u64, p: PortMetricsView) -> Seq<EmissionView> {
    Seq::new(
        5,
        |i: int|
            EmissionView {
                ts_ns,
                dev: text::replaced(p.dev_name, '\0', ' '),
                port: p.port,
                metric: metric_names()[i],
                value: values_of(p)[i],
            },
    )
}

/// What is handed out for some ports.
pub open spec fn ports_emissions(ts_ns: u64, ports: Seq<PortMetricsView>) -> Seq<EmissionView>
    decreases ports.len(),
{
    if ports.len() == 0 {
        seq![]
    } else {
        ports_emissions(ts_ns, ports.drop_last()) + port_emissions(ts_ns, ports.last())
    }
}

/// What is handed out for some samples: sample by sample, port by port, five
/// figures each.
pub open spec fn emissions_of(samples: Seq<CaptureSampleView>) -> Seq<EmissionView>
    decreases samples.len(),
{
    if samples.len() == 0 {
        seq![]
    } else {
        emissions_of(samples.drop_last()) + ports_emissions(
            samples.last().ts_unix_ns,
            samples.last().ports,
        )
    }
}

fn emit(out: &mut Vec<Emission>, ts_ns: u64, p: &PortMetrics, metric: &str, value: Figure)
    ensures
        lists::views(final(out)@) == lists::views(old(out)@).push(
            EmissionView {
                ts_ns,
                dev: text::replaced(p.dev_name@, '\0', ' '),
                port: p.port,
                metric: metric@,
                value: value@,
            },
        ),
{
    let e = Emission {
        ts_ns,
        dev: c_string(p.dev_name.as_str()),
        port: p.port,
        metric: metric.to_owned(),
        value,
    };
    proof {
        lists::lemma_views_push(out@, e);
    }
    out.push(e);
}

fn emit_port(out: &mut Vec<Emission>, ts_ns: u64, p: &PortMetrics)
    ensures
        lists::views(final(out)@) == lists::views(old(out)@) + port_emissions(ts_ns, p@),
{
    let ghost start = lists::views(out@);
    emit(out, ts_ns, p, "tx_gbps", Figure::Gbps(p.tx_bytes.clone()));
    emit(out, ts_ns, p, "rx_gbps", Figure::Gbps(p.rx_bytes.clone()));
    emit(out, ts_ns, p, "tx_pps", Figure::PerSec(p.tx_pkts.clone()));
    emit(out, ts_ns, p, "rx_pps", Figure::PerSec(p.rx_pkts.clone()));
    emit(out, ts_ns, p, "rx_drops_per_sec", Figure::PerSec(p.rx_drops.clone()));
    assert(lists::views(out@) =~= start + port_emissions(ts_ns, p@));
}

/// Lists what is handed to a callback for the samples of a capture.
pub fn emit_samples(result: &CaptureResult) -> (r: Vec<Emission>)
    ensures
        lists::views(r@) == emissions_of(result@.samples),
{
    let ghost all = result@.samples;
    let mut out: Vec<Emission> = Vec::new();
    let mut i: usize = 0;
    assert(lists::views(out@) =~= emissions_of(all.take(0)));
    while i < result.samples.len()
        invariant
            i <= result.samples.len(),
            all == lists::views(result.samples@),
            lists::views(out@) == emissions_of(all.take(i as int)),
        decreases result.samples.len() - i,
    {
        let sample = &result.samples[i];
        proof {
            text::lemma_take_step(all, i as int);
            assert(all[i as int] == sample@);
        }
        let ghost start = lists::views(out@);
        let ghost ports = sample@.ports;
        let mut k: usize = 0;
        assert(lists::views(out@) =~= start + ports_emissions(sample.ts_unix_ns, ports.take(0)));
        while k < sample.ports.len()
            invariant
                k <= sample.ports.len(),
                ports == lists::views(sample.ports@),
                lists::views(out@) == start + ports_emissions(
                    sample.ts_unix_ns,
                    ports.take(k as int),
                ),
            decreases sample.ports.len() - k,
        {
            proof {
                text::lemma_take_step(ports, k as int);
                assert(ports[k as int] == sample.ports@[k as int]@);
            }
            emit_port(&mut out, sample.ts_unix_ns, &sample.ports[k]);
            k += 1;
            assert(lists::views(out@) =~= start + ports_emissions(
                sample.ts_unix_ns,
                ports.take(k as int),
            ));
        }
        assert(ports.take(ports.len() as int) =~= ports);
        i += 1;
    }
    assert(all.take(all.len() as int) =~= all);
    out
}

/// What a caller of the C interface holds: a capture that runs, or what it
/// gathered once it was stopped.
#[derive(Debug)]
pub struct Handle {
    running: bool,
    result: CaptureResult,
    error: Option<String>,
}

/// What a handle holds.
#[verifier::ext_equal]
pub struct HandleView {
    pub running: bool,
    pub result: CaptureResultView,
    pub error: Option<Seq<char>>,
}

impl View for Handle {
    type V = HandleView;

    closed spec fn view(&self) -> HandleView {
        HandleView {
            running: self.running,
            result: self.result@,
            error: lists::opt_text(self.error),
        }
    }
}

/// A handle once its capture has ended with a result. Only the first end
/// counts.
pub open spec fn stopped(h: HandleView, outcome: CaptureResultView) -> HandleView {
    if h.running {
        HandleView {
            running: false,
            result: outcome,
            error: match outcome.error {
                Some(e) => Some(text::replaced(e, '\0', ' ')),
                None => None,
            },
        }
    } else {
        h
    }
}

impl Handle {
    /// A handle on a capture that runs.
    pub fn new() -> (r: Self)
        ensures
            r@ == (HandleView {
                running: true,
                result: CaptureResultView { samples: seq![], error: None },
                error: None,
            }),
    {
        Handle { running: true, result: CaptureResult::default(), error: None }
    }

    /// Whether the capture still runs, so that it has to be stopped.
    pub fn is_running(&self) -> (r: bool)
        ensures
            r == self@.running,
    {
        self.running
    }

    /// Takes in the result of the capture. A handle that was stopped before
    /// keeps what it has.
    pub fn stop(&mut self, outcome: CaptureResult)
        ensures
            final(self)@ == stopped(old(self)@, outcome@),
    {
        if self.running {
            self.running = false;
            self.error = match &outcome.error {
                Some(e) => Some(c_string(e.as_str())),
                None => None,
            };
            self.result = outcome;
        }
    }

    /// Notes that a call into the library did not return.
    pub fn note_panic(&mut self)
        ensures
            final(self)@ == (HandleView { error: Some("rdmatop panicked"@), ..old(self)@ }),
    {
        self.error = Some("rdmatop panicked".to_owned());
    }

    /// The message that the capture ended with; none while all is well.
    pub fn error(&self) -> (r: Option<String>)
        ensures
            lists::opt_text(r) == self@.error,
    {
        lists::copy_text(&self.error)
    }

    /// Lists what is handed to a callback.
    pub fn emissions(&self) -> (r: Vec<Emission>)
        ensures
            lists::views(r@) == emissions_of(self@.result.samples),
    {
        emit_samples(&self.result)
    }
}

/// Once stopped, a handle hands out the same samples every time: whatever a
/// later stop brings is ignored.
pub proof fn law_stop_is_final(h: HandleView, first: CaptureResultView, later: CaptureResultView)
    ensures
        stopped(stopped(h, first), later) == stopped(h, first),
{
}

/// Every port of every sample is handed out as five figures.
pub proof fn law_five_figures_per_port(samples: Seq<CaptureSampleView>)
    ensures
        emissions_of(samples).len() == 5 * port_count(samples),
    decreases samples.len(),
{
    if samples.len() > 0 {
        law_five_figures_per_port(samples.drop_last());
        lemma_ports_emissions_len(samples.last().ts_unix_ns, samples.last().ports);
    }
}

/// The ports of some samples, counted once for each sample they are in.
pub open spec fn port_count(samples: Seq<CaptureSampleView>) -> int
    decreases samples.len(),
{
    if samples.len() == 0 {
        0
    } else {
        port_count(samples.drop_last()) + samples.last().ports.len()
    }
}

proof fn lemma_ports_emissions_len(ts_ns: u64, ports: Seq<PortMetricsView>)
    ensures
        ports_emissions(ts_ns, ports).len() == 5 * ports.len(),
    decreases ports.len(),
{
    if ports.len() > 0 {
        lemma_ports_emissions_len(ts_ns, ports.drop_last());
    }
}

/// No figure is handed out under a name that a C string would cut short.
pub proof fn law_emitted_names_have_no_terminator(s: Seq<char>)
    ensures
        forall|i: int|
            0 <= i < text::replaced(s, '\0', ' ').len() ==> #[trigger] text::replaced(
                s,
                '\0',
                ' ',
            )[i] != '\0',
{
}

/// The five values of a port go out under the names of their figures, each with
/// its own, with the sample's time and the port's device and number.
pub proof fn law_values_go_out_under_their_names(ts_ns: u64, p: PortMetricsView, i: int)
    requires
        0 <= i < 5,
    ensures
        port_emissions(ts_ns, p).len() == 5,
        port_emissions(ts_ns, p)[i].ts_ns == ts_ns,
        port_emissions(ts_ns, p)[i].dev == text::replaced(p.dev_name, '\0', ' '),
        port_emissions(ts_ns, p)[i].port == p.port,
        port_emissions(ts_ns, p)[0].metric == "tx_gbps"@,
        port_emissions(ts_ns, p)[0].value == FigureView::Gbps(p.tx_bytes),
        port_emissions(ts_ns, p)[1].metric == "rx_gbps"@,
        port_emissions(ts_ns, p)[1].value == FigureView::Gbps(p.rx_bytes),
        port_emissions(ts_ns, p)[2].metric == "tx_pps"@,
        port_emissions(ts_ns, p)[2].value == FigureView::PerSec(p.tx_pkts),
        port_emissions(ts_ns, p)[3].metric == "rx_pps"@,
        port_emissions(ts_ns, p)[3].value == FigureView::PerSec(p.rx_pkts),
        port_emissions(ts_ns, p)[4].metric == "rx_drops_per_sec"@,
        port_emissions(ts_ns, p)[4].value == FigureView::PerSec(p.rx_drops),
{
}

/// The values of a sample go out port by port.
pub proof fn law_ports_go_out_in_order(
    ts_ns: u64,
    a: Seq<PortMetricsView>,
    b: Seq<PortMetricsView>,
    p: PortMetricsView,
)
    ensures
        ports_emissions(ts_ns, a + b) == ports_emissions(ts_ns, a) + ports_emissions(ts_ns, b),
        ports_emissions(ts_ns, seq![p]) == port_emissions(ts_ns, p),
    decreases b.len(),
{
    assert(seq![p].drop_last() =~= seq![]);
    assert(ports_emissions(ts_ns, seq![]) =~= seq![]);
    assert(ports_emissions(ts_ns, seq![p]) =~= port_emissions(ts_ns, p));
    if b.len() == 0 {
        assert(a + b =~= a);
        assert(ports_emissions(ts_ns, b) =~= seq![]);
    } else {
        law_ports_go_out_in_order(ts_ns, a, b.drop_last(), p);
        assert((a + b).drop_last() =~= a + b.drop_last());
        assert((a + b).last() == b.last());
    }
    assert(ports_emissions(ts_ns, a + b) =~= ports_emissions(ts_ns, a) + ports_emissions(ts_ns, b));
}

/// The samples go out in the order they were taken, each at its own time.
pub proof fn law_samples_go_out_in_order(
    a: Seq<CaptureSampleView>,
    b: Seq<CaptureSampleView>,
    s: CaptureSampleView,
)
    ensures
        emissions_of(a + b) == emissions_of(a) + emissions_of(b),
        emissions_of(seq![s]) == ports_emissions(s.ts_unix_ns, s.ports),
    decreases b.len(),
{
    assert(seq![s].drop_last() =~= seq![]);
    assert(emissions_of(seq![]) =~= seq![]);
    assert(emissions_of(seq![s]) =~= ports_emissions(s.ts_unix_ns, s.ports));
    if b.len() == 0 {
        assert(a + b =~= a);
        assert(emissions_of(b) =~= seq![]);
    } else {
        law_samples_go_out_in_order(a, b.drop_last(), s);
        assert((a + b).drop_last() =~= a + b.drop_last());
        assert((a + b).last() == b.last());
    }
    assert(emissions_of(a + b) =~= emissions_of(a) + emissions_of(b));
}

/// Stopping a running capture hands over what it gathered and why it ended.
pub proof fn law_stop_hands_over_the_outcome(h: HandleView, outcome: CaptureResultView)
    ensures
        !stopped(h, outcome).running,
        h.running ==> stopped(h, outcome).result == outcome,
        h.running && outcome.error is None ==> stopped(h, outcome).error is None,
        h.running ==> (outcome.error matches Some(e) ==> stopped(h, outcome).error == Some(
            text::replaced(e, '\0', ' '),
        )),
        !h.running ==> stopped(h, outcome) == h,
{
}

/// A filter names the devices between the commas, without the white space round
/// them; blank names do not count, and a filter of none is no filter.
pub proof fn law_filter_names_its_devices(csv: Seq<char>)
    ensures
        devices_of(None) is None,
        devices_of(Some(csv)) is None ==> forall|k: int|
            0 <= k < text::pieces(csv, Some(',')).len() ==> text::trimmed(
                #[trigger] text::pieces(csv, Some(','))[k],
            ).len() == 0,
        devices_of(Some(csv)) matches Some(names) ==> {
            &&& names.len() > 0
            &&& forall|i: int|
                0 <= i < names.len() ==> (#[trigger] names[i]).len() > 0 && exists|k: int|
                    0 <= k < text::pieces(csv, Some(',')).len() && names[i] == text::trimmed(
                        #[trigger] text::pieces(csv, Some(','))[k],
                    )
            &&& forall|k: int|
                0 <= k < text::pieces(csv, Some(',')).len() && text::trimmed(
                    #[trigger] text::pieces(csv, Some(','))[k],
                ).len() > 0 ==> names.contains(text::trimmed(text::pieces(csv, Some(','))[k]))
        },
{
    let parts = text::pieces(csv, Some(','));
    let all = trimmed_all(parts);
    let names = text::nonempty(all);
    text::law_blank_pieces_are_dropped(all);
    assert forall|i: int| 0 <= i < names.len() implies (#[trigger] names[i]).len() > 0 && exists|
        k: int,
    |
        0 <= k < parts.len() && names[i] == text::trimmed(#[trigger] parts[k]) by {
        assert(all.contains(names[i]));
        let k = all.index_of(names[i]);
        assert(all[k] == names[i]);
        assert(names[i] == text::trimmed(parts[k]));
    }
    assert forall|k: int|
        0 <= k < parts.len() && text::trimmed(#[trigger] parts[k]).len() > 0 implies names.contains(
        text::trimmed(parts[k]),
    ) by {
        assert(all[k] == text::trimmed(parts[k]));
    }
    if names.len() == 0 {
        assert forall|k: int| 0 <= k < parts.len() implies text::trimmed(#[trigger] parts[k]).len()
            == 0 by {
            if text::trimmed(parts[k]).len() > 0 {
                assert(names.contains(text::trimmed(parts[k])));
            }
        }
    }
}

/// What a value holds is what its fields hold, each under its own name.
pub proof fn law_views_hold_every_field(
    emission: Emission,
)
    ensures
        emission@.ts_ns == emission.ts_ns,
        emission@.dev == emission.dev@,
        emission@.port == emission.port,
        emission@.metric == emission.metric@,
        emission@.value == emission.value@,
{
}

/// The shortest interval is a hundred microseconds.
pub proof fn law_shortest_interval()
    ensures
        MIN_INTERVAL_US == 100,
{
}

} // verus!
