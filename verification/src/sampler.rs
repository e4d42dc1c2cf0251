//! Background sampling. Every subsystem is collected into a `Snapshot` that is
//! handed to the interface, so slow driver calls never block rendering or
//! input. Times are in nanoseconds of one monotonic clock.

use vstd::prelude::*;

use crate::lists;
use crate::nvlink::{NvLinkSnapshot, NvLinkSnapshotView};
use crate::stat::{PortStat, PortStatView, ProcessRdmaInfo, ProcessRdmaInfoView};
use crate::text;
use crate::xgmi::{XgmiSnapshot, XgmiSnapshotView};

verus! {

/// Byte counters of one network interface.
#[derive(Debug)]
pub struct IfStats {
    pub name: String,
    pub rx_bytes: u64,
    pub tx_bytes: u64,
}

/// What the counters of an interface hold.
pub struct IfStatsView {
    pub name: Seq<char>,
    pub rx_bytes: u64,
    pub tx_bytes: u64,
}

impl View for IfStats {
    type V = IfStatsView;

    open spec fn view(&self) -> IfStatsView {
        IfStatsView { name: self.name@, rx_bytes: self.rx_bytes, tx_bytes: self.tx_bytes }
    }
}

impl Clone for IfStats {
    fn clone(&self) -> (r: Self)
        ensures
            r@ == self@,
    {
        IfStats { name: self.name.clone(), rx_bytes: self.rx_bytes, tx_bytes: self.tx_bytes }
    }
}

/// The number that the text of a counter file writes.
pub open spec fn counter_in(file: Seq<char>) -> Option<nat> {
    text::unsigned_value(text::trimmed(file), u64::MAX as nat)
}

/// The counters of an interface out of its two counter files; none unless both
/// hold a number.
pub open spec fn ifstats_in(name: Seq<char>, rx: Seq<char>, tx: Seq<char>) -> Option<IfStatsView> {
    match (counter_in(rx), counter_in(tx)) {
        (Some(rx_bytes), Some(tx_bytes)) => Some(
            IfStatsView { name, rx_bytes: rx_bytes as u64, tx_bytes: tx_bytes as u64 },
        ),
        _ => None,
    }
}

/// Reads the counters of an interface out of its two counter files.
pub fn ifstats_of(name: &str, rx: &str, tx: &str) -> (r: Option<IfStats>)
    ensures
        lists::opt_view(r) == ifstats_in(name@, rx@, tx@),
{
    let rx_bytes: Option<u64> = text::parse_unsigned(text::trim(rx).as_str(), u64::MAX);
    let tx_bytes: Option<u64> = text::parse_unsigned(text::trim(tx).as_str(), u64::MAX);
    match (rx_bytes, tx_bytes) {
        (Some(rx_bytes), Some(tx_bytes)) => Some(
            IfStats { name: name.to_owned(), rx_bytes, tx_bytes },
        ),
        _ => None,
    }
}

/// What one subsystem read, and when.
#[derive(Debug)]
pub struct Sample<T> {
    pub data: Vec<T>,
    pub taken_at: u64,
}

/// What a sample holds.
#[verifier::ext_equal]
pub struct SampleView<V> {
    pub data: Seq<V>,
    pub taken_at: u64,
}

impl<T: View> View for Sample<T> {
    type V = SampleView<T::V>;

    open spec fn view(&self) -> SampleView<T::V> {
        SampleView { data: lists::views(self.data@), taken_at: self.taken_at }
    }
}

/// Everything one sampling pass produces; a subsystem whose read failed has
/// none. Raw counters only: rates are computed where the previous snapshot
/// lives.
#[derive(Debug)]
pub struct Snapshot {
    pub stats: Option<Sample<PortStat>>,
    pub ifstats: Option<Sample<IfStats>>,
    pub nvlink: Option<Sample<NvLinkSnapshot>>,
    pub xgmi: Option<Sample<XgmiSnapshot>>,
    pub processes: Option<Vec<ProcessRdmaInfo>>,
    /// When the pass started.
    pub taken_at: u64,
}

/// What a snapshot holds.
#[verifier::ext_equal]
pub struct SnapshotView {
    pub stats: Option<SampleView<PortStatView>>,
    pub ifstats: Option<SampleView<IfStatsView>>,
    pub nvlink: Option<SampleView<NvLinkSnapshotView>>,
    pub xgmi: Option<SampleView<XgmiSnapshotView>>,
    pub processes: Option<Seq<ProcessRdmaInfoView>>,
    pub taken_at: u64,
}

impl View for Snapshot {
    type V = SnapshotView;

    open spec fn view(&self) -> SnapshotView {
        SnapshotView {
            stats: lists::opt_view(self.stats),
            ifstats: lists::opt_view(self.ifstats),
            nvlink: lists::opt_view(self.nvlink),
            xgmi: lists::opt_view(self.xgmi),
            processes: match self.processes {
                Some(p) => Some(lists::views(p@)),
                None => None,
            },
            taken_at: self.taken_at,
        }
    }
}

/// The interface's end of the sampling thread.
#[derive(Debug)]
pub struct Sampler {
    interval_ms: u64,
    stop: bool,
    dead: bool,
}

/// What the interface knows of the sampling thread.
pub struct SamplerView {
    pub interval_ms: u64,
    pub stop: bool,
    pub dead: bool,
}

impl View for Sampler {
    type V = SamplerView;

    closed spec fn view(&self) -> SamplerView {
        SamplerView { interval_ms: self.interval_ms, stop: self.stop, dead: self.dead }
    }
}

/// Whole milliseconds of a span.
pub open spec fn millis(ns: u64) -> u64 {
    ns / 1_000_000
}

impl Sampler {
    /// A live thread that samples at an interval.
    pub fn spawn(interval_ns: u64) -> (r: Self)
        ensures
            r@ == (SamplerView { interval_ms: millis(interval_ns), stop: false, dead: false }),
    {
        Sampler { interval_ms: interval_ns / 1_000_000, stop: false, dead: false }
    }

    /// Newest of the snapshots that arrived, dropping any backlog. `None` when
    /// nothing arrived. A disconnected channel means that the thread died.
    pub fn try_latest(&mut self, received: Vec<Snapshot>, disconnected: bool) -> (r: Option<
        Snapshot,
    >)
        ensures
            match r {
                Some(s) => received@.len() > 0 && s == received@.last(),
                None => received@.len() == 0,
            },
            final(self)@ == (SamplerView {
                dead: old(self)@.dead || disconnected,
                ..old(self)@
            }),
    {
        if disconnected {
            self.dead = true;
        }
        let mut backlog = received;
        backlog.pop()
    }

    /// True once the sampling thread has died (channel disconnected).
    pub fn is_dead(&self) -> (r: bool)
        ensures
            r == self@.dead,
    {
        self.dead
    }

    pub fn set_interval(&mut self, interval_ns: u64)
        ensures
            final(self)@ == (SamplerView { interval_ms: millis(interval_ns), ..old(self)@ }),
    {
        self.interval_ms = interval_ns / 1_000_000;
    }

    /// Ask the thread to exit. Detach, never join: a thread stuck inside a
    /// driver call must not block process exit.
    pub fn stop(&mut self)
        ensures
            final(self)@ == (SamplerView { stop: true, ..old(self)@ }),
    {
        self.stop = true;
    }

    /// The interval that the thread is to keep.
    pub fn interval_ms(&self) -> (r: u64)
        ensures
            r == self@.interval_ms,
    {
        self.interval_ms
    }

    /// Whether the thread is to exit.
    pub fn stopping(&self) -> (r: bool)
        ensures
            r == self@.stop,
    {
        self.stop
    }
}

/// Where the sampling thread stands.
#[derive(Clone, Copy, Debug, PartialEq, Eq, Structural)]
pub enum Phase {
    /// Before a pass.
    Begin,
    /// A snapshot was handed over, or nobody was there to take it.
    Sent { delivered: bool },
    /// Between two passes.
    Waiting,
}

/// What the sampling thread does next.
#[derive(Clone, Copy, Debug, PartialEq, Eq, Structural)]
pub enum RunAction {
    Exit,
    Collect,
    /// Sleep for a short slice, so that interval changes and stops apply
    /// quickly.
    Sleep,
}

/// The length of one slice of sleep.
pub const SLEEP_SLICE_MS: u64 = 50;

/// What the sampling thread does next: it exits when it is told to or when
/// nobody takes its snapshots, samples when the interval has passed since the
/// last pass, and sleeps otherwise.
pub open spec fn action_of(phase: Phase, stop: bool, interval_ms: u64, elapsed_ns: u64) -> RunAction {
    if stop || phase == (Phase::Sent { delivered: false }) {
        RunAction::Exit
    } else if phase == Phase::Begin || elapsed_ns >= interval_ms * 1_000_000 {
        RunAction::Collect
    } else {
        RunAction::Sleep
    }
}

/// Decides what the sampling thread does next.
pub fn run_step(phase: Phase, stop: bool, interval_ms: u64, elapsed_ns: u64) -> (r: RunAction)
    ensures
        r == action_of(phase, stop, interval_ms, elapsed_ns),
{
    if stop {
        return RunAction::Exit;
    }
    match phase {
        Phase::Begin => RunAction::Collect,
        Phase::Sent { delivered } => if !delivered {
            RunAction::Exit
        } else if elapsed_ns as u128 >= interval_ms as u128 * 1_000_000 {
            RunAction::Collect
        } else {
            RunAction::Sleep
        },
        Phase::Waiting => if elapsed_ns as u128 >= interval_ms as u128 * 1_000_000 {
            RunAction::Collect
        } else {
            RunAction::Sleep
        },
    }
}

/// A thread that is told to stop exits at its next step, whatever it was doing.
pub proof fn law_stop_ends_the_thread(phase: Phase, interval_ms: u64, elapsed_ns: u64)
    ensures
        action_of(phase, true, interval_ms, elapsed_ns) == RunAction::Exit,
{
}

/// Between two passes, a shorter interval never makes the thread wait longer,
/// and after a pass the next one comes only when the interval has passed.
pub proof fn law_interval_changes_apply(
    phase: Phase,
    shorter_ms: u64,
    longer_ms: u64,
    elapsed_ns: u64,
)
    requires
        shorter_ms <= longer_ms,
    ensures
        action_of(phase, false, longer_ms, elapsed_ns) == RunAction::Collect ==> action_of(
            phase,
            false,
            shorter_ms,
            elapsed_ns,
        ) == RunAction::Collect,
        phase != Phase::Begin && action_of(phase, false, longer_ms, elapsed_ns)
            == RunAction::Collect ==> elapsed_ns >= longer_ms * 1_000_000,
{
}

/// What an interface received comes from the one file and what it sent from the
/// other; without both there is no reading.
pub proof fn law_interface_keeps_direction(name: Seq<char>, rx: Seq<char>, tx: Seq<char>)
    ensures
        match ifstats_in(name, rx, tx) {
            Some(s) => {
                &&& s.name == name
                &&& text::unsigned_value(text::trimmed(rx), u64::MAX as nat) == Some(
                    s.rx_bytes as nat,
                )
                &&& text::unsigned_value(text::trimmed(tx), u64::MAX as nat) == Some(
                    s.tx_bytes as nat,
                )
            },
            None => text::unsigned_value(text::trimmed(rx), u64::MAX as nat) is None
                || text::unsigned_value(text::trimmed(tx), u64::MAX as nat) is None,
        },
{
}

/// A thread that goes on collects at once when it begins and whenever the
/// interval has passed, and sleeps in between; one whose snapshot nobody took
/// exits.
pub proof fn law_thread_keeps_its_interval(phase: Phase, interval_ms: u64, elapsed_ns: u64)
    ensures
        action_of(Phase::Begin, false, interval_ms, elapsed_ns) == RunAction::Collect,
        action_of(Phase::Sent { delivered: false }, false, interval_ms, elapsed_ns)
            == RunAction::Exit,
        phase != (Phase::Sent { delivered: false }) && elapsed_ns >= interval_ms * 1_000_000
            ==> action_of(phase, false, interval_ms, elapsed_ns) == RunAction::Collect,
        phase == Phase::Waiting && elapsed_ns < interval_ms * 1_000_000 ==> action_of(
            phase,
            false,
            interval_ms,
            elapsed_ns,
        ) == RunAction::Sleep,
        phase == (Phase::Sent { delivered: true }) && elapsed_ns < interval_ms * 1_000_000
            ==> action_of(phase, false, interval_ms, elapsed_ns) == RunAction::Sleep,
{
}

/// What a value holds is what its fields hold, each under its own name.
pub proof fn law_views_hold_every_field(
    if_stats: IfStats,
    snapshot: Snapshot,
)
    ensures
        if_stats@.name == if_stats.name@,
        if_stats@.rx_bytes == if_stats.rx_bytes,
        if_stats@.tx_bytes == if_stats.tx_bytes,
        snapshot@.stats == lists::opt_view(snapshot.stats),
        snapshot@.ifstats == lists::opt_view(snapshot.ifstats),
        snapshot@.nvlink == lists::opt_view(snapshot.nvlink),
        snapshot@.xgmi == lists::opt_view(snapshot.xgmi),
        snapshot@.processes == (match snapshot.processes {
            Some(p) => Some(lists::views(p@)),
            None => None,
            }),
        snapshot@.taken_at == snapshot.taken_at,
{
}

/// The interval of the thread is counted in whole milliseconds, and its sleep is
/// cut into pieces of fifty.
pub proof fn law_interval_in_milliseconds(ns: u64)
    ensures
        millis(ns) * 1_000_000 <= ns < (millis(ns) + 1) * 1_000_000,
        SLEEP_SLICE_MS == 50,
{
}

} // verus!
