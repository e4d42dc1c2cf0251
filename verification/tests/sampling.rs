//! The interface's end of the sampling thread.

use rdmatop::sampler::{ifstats_of, run_step, Phase, RunAction, Sampler, Snapshot};

fn snapshot(taken_at: u64) -> Snapshot {
    Snapshot {
        stats: None,
        ifstats: None,
        nvlink: None,
        xgmi: None,
        processes: None,
        taken_at,
    }
}

#[test]
fn only_the_newest_snapshot_is_kept() {
    let mut sampler = Sampler::spawn(1_500_000_000);
    assert_eq!(sampler.interval_ms(), 1500);
    assert!(sampler.try_latest(Vec::new(), false).is_none());
    let latest = sampler.try_latest(vec![snapshot(1), snapshot(2), snapshot(3)], false);
    assert_eq!(latest.unwrap().taken_at, 3);
    assert!(!sampler.is_dead());
    // What arrived before the thread died is still delivered.
    assert_eq!(sampler.try_latest(vec![snapshot(4)], true).unwrap().taken_at, 4);
    assert!(sampler.is_dead());
    sampler.try_latest(Vec::new(), false);
    assert!(sampler.is_dead());
    sampler.set_interval(200_000_000);
    assert_eq!(sampler.interval_ms(), 200);
    assert!(!sampler.stopping());
    sampler.stop();
    assert!(sampler.stopping());
}

#[test]
fn the_thread_samples_at_its_interval() {
    assert_eq!(run_step(Phase::Begin, false, 1000, 0), RunAction::Collect);
    assert_eq!(run_step(Phase::Begin, true, 1000, 0), RunAction::Exit);
    assert_eq!(
        run_step(Phase::Sent { delivered: false }, false, 1000, 0),
        RunAction::Exit
    );
    assert_eq!(
        run_step(Phase::Sent { delivered: true }, false, 1000, 0),
        RunAction::Sleep
    );
    assert_eq!(run_step(Phase::Waiting, false, 1000, 999_999_999), RunAction::Sleep);
    assert_eq!(run_step(Phase::Waiting, false, 1000, 1_000_000_000), RunAction::Collect);
    // A shorter interval applies while waiting, and so does a stop.
    assert_eq!(run_step(Phase::Waiting, false, 200, 999_999_999), RunAction::Collect);
    assert_eq!(run_step(Phase::Waiting, true, 200, 0), RunAction::Exit);
}

#[test]
fn interface_counters_are_read_from_two_files() {
    let eth = ifstats_of("eth0", "12\n", " 34\n").unwrap();
    assert_eq!((eth.name.as_str(), eth.rx_bytes, eth.tx_bytes), ("eth0", 12, 34));
    let most = ifstats_of("x", "18446744073709551615", "0").unwrap();
    assert_eq!(most.rx_bytes, u64::MAX);
    assert!(ifstats_of("x", "18446744073709551616", "0").is_none());
    assert!(ifstats_of("x", "1", "").is_none());
    assert!(ifstats_of("x", "-1", "1").is_none());
}
