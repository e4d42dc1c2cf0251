//! Command-line recording and the traces of the interface.

use std::time::Duration;

use rdmatop::metrics::{Figure, Mean};
use rdmatop::stat::{HwCounter, PortStat};
use rdmatop::trace::{
    csv_counters, csv_header, escape, next_delay, parse, pid_of, write_row, JsonPart, OptionError,
    PortMetrics, Recorder, RecordingRun, RecordingStep, SpanFault, Word, HELP,
};

fn span(text: &str, scale: f64) -> Result<u128, SpanFault> {
    let number = text.parse::<f64>().map_err(|_| SpanFault::Invalid)?;
    if !number.is_finite() || number <= 0.0 {
        return Err(SpanFault::Invalid);
    }
    let duration =
        Duration::try_from_secs_f64(number * scale).map_err(|_| SpanFault::OutOfRange)?;
    if duration.is_zero() {
        return Err(SpanFault::TooShort);
    }
    Ok(duration.as_nanos())
}

fn word(text: &str) -> Word {
    Word { text: text.to_string(), as_millis: span(text, 0.001), as_secs: span(text, 1.0) }
}

fn args(s: &str) -> Vec<Word> {
    s.split_whitespace().map(word).collect()
}

#[test]
fn recording_defaults() {
    let options = parse(&args("--format csv --output out.csv --device efa0")).unwrap();
    assert_eq!(options.path, "out.csv");
    assert_eq!(options.device, "efa0");
    assert_eq!(options.interval_ns, Duration::from_millis(1).as_nanos());
    assert_eq!(options.duration_ns, Duration::from_secs(10).as_nanos());
    assert_eq!(options.port, 1);
}

#[test]
fn fractional_interval_uses_milliseconds() {
    let options = parse(&args(
        "--format csv --output out.csv --device efa0 --interval 0.1 --duration 0.5 --port 2",
    ))
    .unwrap();
    assert_eq!(options.interval_ns, Duration::from_micros(100).as_nanos());
    assert_eq!(options.duration_ns, Duration::from_millis(500).as_nanos());
    assert_eq!(options.port, 2);
}

#[test]
fn reject_invalid_recording_options() {
    for suffix in [
        "--interval 0",
        "--interval NaN",
        "--interval inf",
        "--interval -1",
        "--interval 1e-50",
        "--interval 1e100",
        "--duration -1",
        "--duration 0",
        "--duration NaN",
        "--duration inf",
        "--duration 1e-50",
        "--port 0",
        "--port invalid",
        "--format json",
        "--unknown 1",
        "--interval",
        "--format",
        "--output",
    ] {
        assert!(
            parse(&args(&format!(
                "--format csv --output out.csv --device efa0 {suffix}"
            )))
            .is_err(),
            "accepted {suffix}"
        );
    }
    for command in [
        "--output out.csv --device efa0",
        "--format csv --device efa0",
        "--format csv --output out.csv",
    ] {
        assert!(parse(&args(command)).is_err(), "accepted {command}");
    }
    for option in ["--output", "--device", "--format"] {
        let mut arguments = args("--format csv --output out.csv --device efa0");
        arguments.extend([word(option), word("")]);
        assert!(parse(&arguments).is_err(), "accepted empty {option}");
    }
}

#[test]
fn slow_query_does_not_add_another_full_interval() {
    let interval = Duration::from_millis(1).as_nanos();
    assert_eq!(
        next_delay(interval, Duration::from_micros(300).as_nanos()),
        Duration::from_micros(700).as_nanos()
    );
    assert_eq!(
        next_delay(interval, Duration::from_millis(2).as_nanos()),
        Duration::ZERO.as_nanos()
    );
}

#[test]
fn absent_counter_is_empty_instead_of_zero() {
    let stat = PortStat {
        dev_name: "efa0".into(),
        port: 1,
        link_mbps: None,
        state: None,
        counters: vec![HwCounter { name: "tx_bytes".into(), value: 42 }],
    };
    let mut row = String::new();
    write_row(&mut row, 100, 200, &stat);
    assert!(row.ends_with('\n'));
    let fields: Vec<_> = row.trim_end().split(',').collect();
    assert_eq!(fields.len(), 2 + csv_counters().len());
    assert_eq!(&fields[..4], &["100", "200", "42", ""]);
}

#[test]
fn each_option_error_has_its_message() {
    let good = "--format csv --output out.csv --device efa0";
    let message = |s: &str| parse(&args(s)).err().unwrap().message();
    assert_eq!(message("--format"), "missing value for --format");
    assert_eq!(message(&format!("{good} --port x")), "invalid port");
    assert_eq!(message(&format!("{good} --interval x")), "invalid duration: x");
    assert_eq!(message(&format!("{good} --interval -2")), "invalid duration: -2");
    assert_eq!(
        message(&format!("{good} --duration 1e100")),
        "duration out of range: 1e100"
    );
    assert_eq!(
        message(&format!("{good} --duration 1e-50")),
        "duration must be at least 1 ns"
    );
    assert_eq!(message(&format!("{good} --what 1")), "unknown option: --what");
    assert_eq!(
        message("--format json --output o --device d"),
        "unsupported format: json (expected csv)"
    );
    assert_eq!(message("--output o --device d"), "--format is required");
    assert_eq!(message(&format!("{good} --port 0")), "port must be positive");
    assert_eq!(message("--format csv --device d"), "--output is required");
    assert_eq!(message("--format csv --output o"), "--device is required");
    assert!(matches!(
        parse(&args("--format csv --output o --device d --port 0")),
        Err(OptionError::PortNotPositive)
    ));
}

#[test]
fn a_later_option_replaces_an_earlier_one() {
    let options =
        parse(&args("--format json --format csv --output a --output b --device d --port 3"))
            .unwrap();
    assert_eq!(options.path, "b");
    assert_eq!(options.port, 3);
    assert!(parse(&args("--format csv --output a --device d --port +4")).is_ok());
}

#[test]
fn the_header_names_every_counter() {
    assert_eq!(
        csv_header().trim_end(),
        format!("poll_start_ns,poll_end_ns,{}", csv_counters().join(","))
    );
    assert_eq!(csv_counters()[0], "tx_bytes");
    assert_eq!(csv_counters().len(), 11);
    assert!(HELP.starts_with("Usage: rdmatop\n"));
}

#[test]
fn a_run_polls_at_least_once_and_waits_no_longer_than_it_lasts() {
    let options =
        parse(&args("--format csv --output o --device d --interval 10 --duration 0.025")).unwrap();
    let ms = 1_000_000u128;
    let mut run = RecordingRun::new(&options);
    // Even when the time is over before the first poll.
    assert!(run.polls(100 * ms));
    run.record(5, 9, 4 * ms);
    assert!(!run.polls(25 * ms));
    assert!(run.polls(24 * ms));
    assert!(matches!(run.after_poll(4 * ms, 4 * ms), RecordingStep::Wait { ns } if ns == 6 * ms));
    assert!(matches!(run.after_poll(4 * ms, 22 * ms), RecordingStep::Wait { ns } if ns == 3 * ms));
    assert!(matches!(run.after_poll(12 * ms, 20 * ms), RecordingStep::Wait { ns } if ns == 0));
    assert!(matches!(run.after_poll(ms, 25 * ms), RecordingStep::Finish));
    run.record(10, 30, 11 * ms);
    assert_eq!((run.samples, run.read_ns, run.overruns), (2, 24, 1));
}

fn metrics(dev: &str, port: u32) -> PortMetrics {
    PortMetrics {
        dev_name: dev.to_string(),
        port,
        tx_bytes: Mean::of(125_000_000, 1_000_000_000),
        rx_bytes: Mean::zero(),
        tx_pkts: Mean::of(10, 2_000_000_000),
        rx_pkts: Mean::zero(),
        rx_drops: Mean::zero(),
    }
}

fn per_sec(mean: &Mean) -> f64 {
    match mean {
        Mean::One(r) => r.delta as f64 / (r.elapsed_ns as f64 / 1e9),
        Mean::Of(parts) if parts.is_empty() => 0.0,
        Mean::Of(parts) => parts.iter().map(per_sec).sum::<f64>() / parts.len() as f64,
    }
}

fn rendered(parts: &[JsonPart]) -> String {
    parts
        .iter()
        .map(|p| match p {
            JsonPart::Text(s) => s.clone(),
            JsonPart::Number(f) => {
                let (mean, scale) = match f {
                    Figure::Gbps(m) => (m, 8.0 / 1e9),
                    Figure::PerSec(m) => (m, 1.0),
                };
                format!("{}", per_sec(mean) * scale)
            }
        })
        .collect()
}

#[test]
fn a_trace_holds_every_sample_of_every_port() {
    let mut rec = Recorder::new(1_000_000);
    assert!(rec.is_empty());
    rec.push(3_500_000, vec![metrics("mlx5_0", 1), metrics("a\"b", 2)]);
    rec.push(500_000, vec![metrics("a\"b", 2)]);
    assert_eq!(rec.sample_count(), 2);
    assert_eq!(rec.elapsed_secs(4_001_000_000), 4);
    assert_eq!(rec.elapsed_secs(0), 0);
    let json = rendered(&rec.to_json());
    assert!(json.contains("\"ts\":2500"), "{json}");
    assert!(json.contains("\"ts\":0"), "{json}");
    assert!(json.contains("mlx5_0"), "{json}");
    assert!(json.contains("a\\\"b"), "{json}");
    assert_eq!(json.matches("process_name").count(), 2);
    assert_eq!(json.matches("\"ph\":\"C\"").count(), 15);
    assert!(json.contains(":1}"), "{json}");
}

#[test]
fn control_characters_are_escaped() {
    assert_eq!(escape("a\"\\\n\r\t\u{1}\u{1f}é"), "a\\\"\\\\\\n\\r\\t\\u0001\\u001fé");
    assert_eq!(escape(""), "");
}

#[test]
fn a_row_has_a_field_for_each_heading() {
    let stat = PortStat {
        dev_name: "mlx5_0".into(),
        port: 1,
        link_mbps: None,
        state: None,
        counters: vec![
            HwCounter { name: "rx_pkts".into(), value: 7 },
            HwCounter { name: "tx_bytes".into(), value: 4096 },
        ],
    };
    let mut row = String::new();
    write_row(&mut row, 5, 6, &stat);
    assert!(row.ends_with('\n'));
    let heading = csv_header();
    let names: Vec<&str> = heading.trim_end().split(',').collect();
    let fields: Vec<&str> = row.trim_end_matches('\n').split(',').collect();
    assert_eq!(fields.len(), names.len());
    let field = |name: &str| fields[names.iter().position(|n| *n == name).unwrap()];
    assert_eq!(field("poll_start_ns"), "5");
    assert_eq!(field("poll_end_ns"), "6");
    assert_eq!(field("tx_bytes"), "4096");
    assert_eq!(field("rx_pkts"), "7");
    assert_eq!(field("rx_bytes"), "");
}

#[test]
fn each_port_is_a_process_of_its_own() {
    let order = vec![("a".to_string(), 1u32), ("a".to_string(), 2), ("b".to_string(), 1)];
    assert_eq!(pid_of(&order, "a", 1), 1);
    assert_eq!(pid_of(&order, "a", 2), 2);
    assert_eq!(pid_of(&order, "b", 1), 3);

    let mut recorder = Recorder::new(0);
    recorder.push(1_000_000, vec![metrics("a", 1), metrics("a", 2)]);
    recorder.push(2_000_000, vec![metrics("b", 1), metrics("a", 1)]);
    let json = rendered(&recorder.to_json());
    for (pid, label) in [(1, "a:1"), (2, "a:2"), (3, "b:1")] {
        let event =
            format!("\"ph\":\"M\",\"pid\":{pid},\"args\":{{\"name\":\"{label}\"}}");
        assert_eq!(json.matches(&event).count(), 1);
    }
    assert_eq!(json.matches("\"ph\":\"C\",\"pid\":1,").count(), 10);
    assert_eq!(json.matches("\"ph\":\"C\",\"pid\":2,").count(), 5);
    assert_eq!(json.matches("\"ph\":\"C\",\"pid\":3,").count(), 5);
}
