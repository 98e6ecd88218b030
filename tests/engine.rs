use kali::config::{parse_hosts_and_biases, BiasError, Config};
use kali::metrics::{LoadTestReport, MetricsStore, RequestMetrics};
use kali::report::{build_report, generate_final_report, tally, target_hosts};
use kali::selector::{ConfigError, SelectorError, TargetSelector};
use kali::text::{parse_u32, split_on};
use kali::worker::{pacing_delay, RunPlan, Worker};
use std::collections::HashMap;

fn pairs(items: &[(&str, u32)]) -> Vec<(String, u32)> {
    items.iter().map(|(h, b)| (h.to_string(), *b)).collect()
}

fn config_with(host: Option<&str>, biases: Option<Vec<(String, u32)>>, rps: u32, duration: u64, jitter: u64) -> Config {
    Config {
        host: host.map(|h| h.to_string()),
        hosts_and_biases: biases,
        port: 8080,
        duration,
        rps,
        load_test_type: "tcp".to_string(),
        output_file: "output.json".to_string(),
        payload: "Hello World".to_string(),
        jitter,
    }
}

fn metric(host: &str, response_time: u64, success: bool) -> RequestMetrics {
    RequestMetrics { host: host.to_string(), response_time, success, timestamp: 1_700_000_000 }
}

#[test]
fn test_config_parsing() {
    let biases = parse_hosts_and_biases("127.0.0.1:70,192.168.1.1:30").unwrap();
    let config = Config {
        host: None,
        hosts_and_biases: Some(biases),
        port: 8080,
        duration: 10,
        rps: 100,
        load_test_type: "tcp".to_string(),
        output_file: "output.json".to_string(),
        payload: "Hello World".to_string(),
        jitter: 100,
    };
    let mut expected_hosts_and_biases = HashMap::new();
    expected_hosts_and_biases.insert("127.0.0.1".to_string(), 70);
    expected_hosts_and_biases.insert("192.168.1.1".to_string(), 30);
    let parsed: Option<HashMap<String, u32>> =
        config.hosts_and_biases.clone().map(|v| v.into_iter().collect());

    assert_eq!(parsed, Some(expected_hosts_and_biases));
    assert_eq!(config.port, 8080);
    assert_eq!(config.duration, 10);
    assert_eq!(config.rps, 100);
    assert_eq!(config.load_test_type, "tcp");
    assert_eq!(config.output_file, "output.json");
    assert_eq!(config.payload, "Hello World");
    assert_eq!(config.jitter, 100);
}

#[test]
fn test_invalid_bias_parsing() {
    let result = parse_hosts_and_biases("127.0.0.1:70,192.168.1.1:0");
    assert!(result.is_err());
}

#[test]
fn test_bias_overflow_parsing() {
    let result = parse_hosts_and_biases("127.0.0.1:4294967295,192.168.1.1:1");
    assert!(result.is_err());
}

#[test]
fn bias_errors_name_their_cause() {
    assert_eq!(parse_hosts_and_biases("127.0.0.1:70,192.168.1.1:0"), Err(BiasError::ZeroBias));
    assert_eq!(parse_hosts_and_biases("127.0.0.1:4294967295,192.168.1.1:1"), Err(BiasError::TotalOverflow));
    assert_eq!(parse_hosts_and_biases("127.0.0.1"), Err(BiasError::InvalidPair));
    assert_eq!(parse_hosts_and_biases("a:1:2"), Err(BiasError::InvalidPair));
    assert_eq!(parse_hosts_and_biases(""), Err(BiasError::InvalidPair));
    assert_eq!(parse_hosts_and_biases("a:x"), Err(BiasError::InvalidBias));
    assert_eq!(parse_hosts_and_biases("a:-1"), Err(BiasError::InvalidBias));
    assert_eq!(parse_hosts_and_biases("a:4294967296"), Err(BiasError::InvalidBias));
    // the first bad item decides
    assert_eq!(parse_hosts_and_biases("a:0,b"), Err(BiasError::ZeroBias));
}

#[test]
fn bias_list_keeps_order_and_merges_repeats() {
    assert_eq!(
        parse_hosts_and_biases("b:5,a:7,b:9"),
        Ok(pairs(&[("b", 9), ("a", 7)]))
    );
    assert_eq!(parse_hosts_and_biases("h:+4294967295"), Ok(pairs(&[("h", 4294967295)])));
    // repeats count twice towards the total
    assert_eq!(parse_hosts_and_biases("h:4294967295,h:1"), Err(BiasError::TotalOverflow));
}

#[test]
fn split_and_number_reading() {
    assert_eq!(split_on("a,,b,", ','), vec!["a", "", "b", ""]);
    assert_eq!(split_on("", ','), vec![""]);
    assert_eq!(split_on("héllo:wörld", ':'), vec!["héllo", "wörld"]);
    assert_eq!(parse_u32("0"), Some(0));
    assert_eq!(parse_u32("007"), Some(7));
    assert_eq!(parse_u32("+12"), Some(12));
    assert_eq!(parse_u32("4294967295"), Some(4294967295));
    assert_eq!(parse_u32("4294967296"), None);
    assert_eq!(parse_u32("99999999999999999999999"), None);
    assert_eq!(parse_u32(""), None);
    assert_eq!(parse_u32("+"), None);
    assert_eq!(parse_u32("1 "), None);
    assert_eq!(parse_u32("-0"), None);
}

#[test]
fn selector_refuses_bad_weights() {
    assert!(matches!(TargetSelector::weighted(&pairs(&[("a", 70), ("b", 0)])), Err(SelectorError::ZeroWeight)));
    assert!(matches!(
        TargetSelector::weighted(&pairs(&[("a", 4294967295), ("b", 1)])),
        Err(SelectorError::TotalOverflow)
    ));
    assert!(matches!(TargetSelector::weighted(&Vec::new()), Err(SelectorError::NoTargets)));
    let s = TargetSelector::weighted(&pairs(&[("a", 4294967294), ("b", 1)])).unwrap();
    assert_eq!(s.total(), 4294967295);
}

#[test]
fn selector_picks_by_cumulative_weight() {
    let s = TargetSelector::weighted(&pairs(&[("a", 70), ("b", 30)])).unwrap();
    assert_eq!(s.len(), 2);
    assert_eq!(s.total(), 100);
    assert_eq!(s.pick(0), 0);
    assert_eq!(s.pick(69), 0);
    assert_eq!(s.pick(70), 1);
    assert_eq!(s.pick(99), 1);
    assert_eq!(s.host(1), "b");
    let t = TargetSelector::weighted(&pairs(&[("x", 1), ("y", 2), ("z", 3)])).unwrap();
    let picked: Vec<usize> = (0..6).map(|r| t.pick(r)).collect();
    assert_eq!(picked, vec![0, 1, 1, 2, 2, 2]);
}

#[test]
fn weighted_draws_follow_the_weights() {
    let config = config_with(None, Some(pairs(&[("127.0.0.1", 70), ("192.168.1.1", 30)])), 100, 1, 0);
    let plan = RunPlan::from_config(&config).unwrap();
    let mut worker = Worker::new(&plan, 42);
    let mut counts = [0u32; 2];
    for _ in 0..100_000 {
        counts[worker.next_target(&plan.selector)] += 1;
    }
    let first = counts[0] as f64 / 100_000.0;
    let second = counts[1] as f64 / 100_000.0;
    assert!((first - 0.70).abs() < 0.01, "{}", first);
    assert!((second - 0.30).abs() < 0.01, "{}", second);
}

#[test]
fn single_target_never_draws() {
    let s = TargetSelector::single("10.0.0.1".to_string());
    let config = config_with(Some("10.0.0.1"), None, 10, 1, 0);
    let plan = RunPlan::from_config(&config).unwrap();
    let mut worker = Worker::new(&plan, 7);
    for _ in 0..100 {
        assert_eq!(worker.next_target(&s), 0);
    }
    assert_eq!(s.host(0), "10.0.0.1");
}

#[test]
fn configuration_targets_must_be_exactly_one_kind() {
    let both = config_with(Some("a"), Some(pairs(&[("b", 1)])), 10, 1, 0);
    assert!(matches!(TargetSelector::from_config(&both), Err(ConfigError::ConflictingTargets)));
    let none = config_with(None, None, 10, 1, 0);
    assert!(matches!(RunPlan::from_config(&none), Err(ConfigError::MissingTarget)));
    let zero = config_with(None, Some(pairs(&[("b", 0)])), 10, 1, 0);
    assert!(matches!(
        RunPlan::from_config(&zero),
        Err(ConfigError::Selector(SelectorError::ZeroWeight))
    ));
}

#[test]
fn plan_spreads_the_rate_over_one_worker_per_target() {
    let two = config_with(None, Some(pairs(&[("a", 70), ("b", 30)])), 100, 5, 50);
    let plan = RunPlan::from_config(&two).unwrap();
    assert_eq!(plan.workers, 2);
    assert_eq!(plan.period_us, 20_000);
    assert_eq!(plan.deadline_us, 5_000_000);
    assert_eq!(plan.jitter_ms, 50);
    let one = config_with(Some("127.0.0.1"), None, 10, 1, 0);
    let plan = RunPlan::from_config(&one).unwrap();
    assert_eq!(plan.workers, 1);
    assert_eq!(plan.period_us, 100_000);
    assert_eq!(plan.deadline_us, 1_000_000);
    let idle = config_with(Some("127.0.0.1"), None, 0, 1, 0);
    assert_eq!(RunPlan::from_config(&idle).unwrap().workers, 0);
    let long = config_with(Some("127.0.0.1"), None, 3, u64::MAX, 0);
    let plan = RunPlan::from_config(&long).unwrap();
    assert_eq!(plan.deadline_us, u64::MAX);
    assert_eq!(plan.period_us, 333_333);
}

#[test]
fn worker_makes_its_first_request_and_stops_at_the_deadline() {
    let config = config_with(Some("127.0.0.1"), None, 10, 1, 0);
    let plan = RunPlan::from_config(&config).unwrap();
    let mut worker = Worker::new(&plan, 1);
    assert!(worker.keep_going(u64::MAX));
    assert_eq!(worker.finish_request(30_000), 70_000);
    assert!(worker.keep_going(999_999));
    assert!(!worker.keep_going(1_000_000));
    assert_eq!(worker.finish_request(250_000), 0);
    let zero = config_with(Some("127.0.0.1"), None, 10, 0, 0);
    let plan = RunPlan::from_config(&zero).unwrap();
    let worker = Worker::new(&plan, 1);
    assert!(worker.keep_going(5));
}

#[test]
fn worker_jitter_stays_below_its_bound() {
    let config = config_with(Some("127.0.0.1"), None, 10, 1, 50);
    let plan = RunPlan::from_config(&config).unwrap();
    let mut worker = Worker::new(&plan, 9);
    let mut seen_jitter = false;
    for _ in 0..200 {
        let pause = worker.finish_request(0);
        assert!(pause >= 100_000 && pause < 150_000);
        assert_eq!((pause - 100_000) % 1000, 0);
        if pause > 100_000 {
            seen_jitter = true;
        }
    }
    assert!(seen_jitter);
}

#[test]
fn pacing_subtracts_time_already_spent() {
    assert_eq!(pacing_delay(100_000, 0, 0), 100_000);
    assert_eq!(pacing_delay(100_000, 20, 30_000), 90_000);
    assert_eq!(pacing_delay(100_000, 0, 100_000), 0);
    assert_eq!(pacing_delay(100_000, 0, 500_000), 0);
    assert_eq!(pacing_delay(u64::MAX, u64::MAX, 0), u64::MAX);
}

#[test]
fn store_keeps_every_entry_once() {
    let mut a = MetricsStore::new();
    a.record(metric("x", 1, true));
    a.record(metric("y", 2, false));
    let mut b = MetricsStore::new();
    b.record(metric("z", 3, true));
    a.absorb(b);
    assert_eq!(a.len(), 3);
    let all = a.drain();
    let hosts: Vec<&str> = all.iter().map(|m| m.host.as_str()).collect();
    assert_eq!(hosts, vec!["x", "y", "z"]);
}

#[test]
fn tally_counts_and_averages() {
    let entries = vec![metric("a", 10, true), metric("b", 25, false), metric("a", 40, true), metric("a", 3, false)];
    let all = tally(&entries, None);
    assert_eq!(all.total_requests, 4);
    assert_eq!(all.successful_requests, 2);
    assert_eq!(all.failed_requests, 2);
    assert_eq!(all.total_response_time, 78);
    assert_eq!(all.average_response_time, 19);
    let a = "a".to_string();
    let only_a = tally(&entries, Some(&a));
    assert_eq!(only_a.total_requests, 3);
    assert_eq!(only_a.successful_requests, 2);
    assert_eq!(only_a.failed_requests, 1);
    assert_eq!(only_a.average_response_time, 17);
    let empty = tally(&Vec::new(), None);
    assert_eq!(empty.total_requests, 0);
    assert_eq!(empty.average_response_time, 0);
    let big = vec![metric("a", u64::MAX, true), metric("a", u64::MAX, true)];
    let t = tally(&big, None);
    assert_eq!(t.total_response_time, 2 * u64::MAX as u128);
    assert_eq!(t.average_response_time, u64::MAX);
}

#[test]
fn final_report_breaks_down_by_configured_target() {
    let config = config_with(None, Some(pairs(&[("a", 70), ("b", 30), ("c", 1)])), 100, 1, 0);
    assert_eq!(target_hosts(&config), vec!["a", "b", "c"]);
    let entries = vec![metric("b", 5, true), metric("a", 7, false), metric("b", 9, true)];
    let r = generate_final_report(&entries, &config);
    assert_eq!(r.overall.total_requests, 3);
    assert_eq!(r.overall.successful_requests + r.overall.failed_requests, 3);
    assert_eq!(r.overall.average_response_time, 7);
    assert_eq!(r.hosts.len(), 3);
    assert_eq!(r.hosts[0].0, "a");
    assert_eq!(r.hosts[0].1.failed_requests, 1);
    assert_eq!(r.hosts[1].1.total_requests, 2);
    assert_eq!(r.hosts[1].1.average_response_time, 7);
    assert_eq!(r.hosts[2].1.total_requests, 0);
    // arrival order does not matter
    let reordered = vec![metric("b", 9, true), metric("b", 5, true), metric("a", 7, false)];
    assert_eq!(generate_final_report(&reordered, &config), r);
}

#[test]
fn failed_run_still_reports() {
    let config = config_with(Some("127.0.0.1"), None, 10, 1, 0);
    let entries = vec![metric("127.0.0.1", 120, false), metric("127.0.0.1", 80, false)];
    let r = generate_final_report(&entries, &config);
    assert_eq!(r.overall.successful_requests, 0);
    assert_eq!(r.overall.failed_requests, 2);
    assert_eq!(r.hosts.len(), 1);
    let report: LoadTestReport = build_report(entries.clone(), &config);
    assert_eq!(report.duration, 1);
    assert_eq!(report.rps, 10);
    assert_eq!(report.load_test_type, "tcp");
    assert_eq!(report.metrics, entries);
}

#[test]
fn parsed_lists_always_make_a_selector() {
    for text in ["a:1", "a:4294967295", "a:5,b:7,a:9", "x:1,y:2,z:4294967292"] {
        let biases = parse_hosts_and_biases(text).unwrap();
        let s = TargetSelector::weighted(&biases).unwrap();
        assert_eq!(s.len(), biases.len());
        let total: u64 = biases.iter().map(|(_, b)| *b as u64).sum();
        assert_eq!(s.total() as u64, total);
    }
}
