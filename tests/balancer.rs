use memory_balancer::allocation::{decide, Decision, COOLDOWN_MS};
use memory_balancer::config::{parse_config, parse_target, ConfigError};
use memory_balancer::protocol::{
    encode_request, mb_to_bytes, response_well_formed, Request, usage_from_lookup, usage_from_response, ResponseError,
};
use memory_balancer::registry::{Allocation, Registry, MAX_MB, MIB};
use memory_balancer::worker::{Action, Event, Phase, Worker};

fn args(words: &[&str]) -> Vec<String> {
    words.iter().map(|w| w.to_string()).collect()
}

fn two_machines() -> Registry {
    parse_config(&args(&["a", "/run/a.sock", "500", "b", "/run/b.sock", "500"]), 0).unwrap()
}

fn summary(bytes: u64) -> String {
    format!("{{\"return\": {{\"base-memory\": {}}}}}", bytes)
}

/// Runs one full cycle of `worker` whose memory-summary reply is `reply`.
fn run_cycle(worker: &mut Worker, reg: &mut Registry, reply: &str, now_ms: u64) -> Action {
    assert_eq!(worker.step(reg, Event::Tick { stop_requested: false }, now_ms), Action::Connect);
    assert_eq!(worker.step(reg, Event::Connected, now_ms), Action::SendHandshake);
    assert_eq!(
        worker.step(reg, Event::Response("{\"return\": {}}".to_string()), now_ms),
        Action::SendQuery
    );
    worker.step(reg, Event::Response(reply.to_string()), now_ms)
}

#[test]
fn budget_exceeded_two_machines() {
    // A: 800 of 500, B: 400 of 500; totals 1200 and 1000, excess 200.
    let a = decide(800, 500, 1200, 1000, 0);
    assert_eq!(a, Decision { new_target_mb: 667, adjust: false });
    let b = decide(400, 500, 1200, 1000, 0);
    assert_eq!(b, Decision { new_target_mb: 334, adjust: true });
}

#[test]
fn budget_exceeded_through_registry() {
    let mut reg = two_machines();
    reg.record_observation(0, 800);
    let d = reg.observe_and_decide(1, 400, 1_000);
    assert_eq!(d, Decision { new_target_mb: 334, adjust: true });
    assert_eq!(reg.snapshot_totals(), (1200, 1000));
    let d = reg.observe_and_decide(0, 800, 1_000);
    assert_eq!(d, Decision { new_target_mb: 667, adjust: false });
}

#[test]
fn budget_exceeded_through_worker() {
    let mut reg = two_machines();
    reg.record_observation(0, 800);
    let mut w = Worker::new(1);
    let action = run_cycle(&mut w, &mut reg, &summary(400 * MIB), 1_000);
    assert_eq!(action, Action::SendBalloon { bytes: 334 * MIB });
    assert_eq!(w.phase, Phase::Adjusting);
    assert_eq!(w.step(&mut reg, Event::Response("{\"return\": {}}".to_string()), 2_000), Action::Sleep);
    assert_eq!(reg.get_entry(1).last_adjusted_at_ms, 2_000);
    assert_eq!(reg.get_entry(1).declared_target_mb, 500);
}

#[test]
fn grow_back_after_cooldown() {
    let mut reg = parse_config(&args(&["vm", "/run/vm.sock", "500"]), 0).unwrap();
    let mut w = Worker::new(0);
    let action = run_cycle(&mut w, &mut reg, &summary(300 * MIB), 400_000);
    assert_eq!(action, Action::SendBalloon { bytes: 500 * MIB });
    assert_eq!(w.step(&mut reg, Event::Response("{\"return\": {}}".to_string()), 400_000), Action::Sleep);
    assert_eq!(
        reg.get_entry(0),
        Allocation { declared_target_mb: 500, observed_actual_mb: 300, last_adjusted_at_ms: 400_000 }
    );
    // Within the next window no second grow-back is sent.
    let action = run_cycle(&mut w, &mut reg, &summary(300 * MIB), 700_000);
    assert_eq!(action, Action::Sleep);
    let action = run_cycle(&mut w, &mut reg, &summary(300 * MIB), 700_001);
    assert_eq!(action, Action::SendBalloon { bytes: 500 * MIB });
}

#[test]
fn failed_adjustment_keeps_last_adjustment_time() {
    let mut reg = parse_config(&args(&["vm", "/run/vm.sock", "500"]), 0).unwrap();
    let mut w = Worker::new(0);
    let action = run_cycle(&mut w, &mut reg, &summary(300 * MIB), 400_000);
    assert_eq!(action, Action::SendBalloon { bytes: 500 * MIB });
    assert_eq!(w.step(&mut reg, Event::ChannelFailed, 400_000), Action::Sleep);
    assert_eq!(reg.get_entry(0).last_adjusted_at_ms, 0);
    assert_eq!(reg.get_entry(0).observed_actual_mb, 300);
}

#[test]
fn missing_field_is_a_soft_failure() {
    assert_eq!(usage_from_response("{\"return\": {}}"), Err(ResponseError::MissingField));
    let mut reg = two_machines();
    reg.record_observation(0, 123);
    let before = reg.get_entry(0);
    let mut w = Worker::new(0);
    let action = run_cycle(&mut w, &mut reg, "{\"return\": {}}", 500_000);
    assert_eq!(action, Action::Sleep);
    assert_eq!(w.phase, Phase::Idle);
    assert_eq!(reg.get_entry(0), before);
}

#[test]
fn malformed_reply_leaves_other_machine_alone() {
    let mut reg = two_machines();
    reg.record_observation(1, 250);
    let other = reg.get_entry(1);
    let mut a = Worker::new(0);
    assert_eq!(run_cycle(&mut a, &mut reg, "not json", 500_000), Action::Sleep);
    assert_eq!(reg.get_entry(1), other);
    assert_eq!(reg.get_entry(0).observed_actual_mb, 0);
    let mut b = Worker::new(1);
    assert_eq!(b.step(&mut reg, Event::Tick { stop_requested: false }, 500_001), Action::Connect);
}

#[test]
fn steady_state_records_usage_only() {
    let mut reg = two_machines();
    let mut w = Worker::new(0);
    let action = run_cycle(&mut w, &mut reg, &summary(500 * MIB), 900_000);
    assert_eq!(action, Action::Sleep);
    assert_eq!(
        reg.get_entry(0),
        Allocation { declared_target_mb: 500, observed_actual_mb: 500, last_adjusted_at_ms: 0 }
    );
    assert_eq!(decide(600, 500, 900, 1000, 10_000_000), Decision { new_target_mb: 600, adjust: false });
}

#[test]
fn shrink_suppressed_at_or_above_target() {
    // candidate 1000 - 100*1000/1100 = 910, above the declared 900
    assert_eq!(decide(1000, 900, 1100, 1000, 0), Decision { new_target_mb: 910, adjust: false });
    // candidate exactly at the declared target
    assert_eq!(decide(100, 50, 200, 100, 0), Decision { new_target_mb: 50, adjust: false });
}

#[test]
fn cooldown_boundary() {
    assert_eq!(decide(300, 500, 300, 500, COOLDOWN_MS), Decision { new_target_mb: 300, adjust: false });
    assert_eq!(decide(300, 500, 300, 500, COOLDOWN_MS + 1), Decision { new_target_mb: 500, adjust: true });
}

#[test]
fn proportional_shares_sum_to_excess() {
    let actuals = [700u64, 200, 100];
    let total: u64 = actuals.iter().sum();
    let target = 700u64;
    let given_up: u64 = actuals
        .iter()
        .map(|&a| a - decide(a, 0, total, target, 0).new_target_mb)
        .sum();
    // shares 210, 60, 30
    assert_eq!(given_up, 300);
    let actuals = [1u64, 1, 1];
    let given_up: u64 = actuals.iter().map(|&a| a - decide(a, 0, 3, 1, 0).new_target_mb).sum();
    // each share truncates 2/3 to 0; less than one MiB lost per machine
    assert_eq!(given_up, 0);
}

#[test]
fn shrink_with_largest_values() {
    let d = decide(MAX_MB, MAX_MB, u64::MAX, 0, 0);
    assert_eq!(d.new_target_mb, 0);
    assert!(d.adjust);
}

#[test]
fn usage_is_whole_mib() {
    assert_eq!(usage_from_response(&summary(1_073_741_824)), Ok(1024));
    assert_eq!(usage_from_response(&summary(MIB - 1)), Ok(0));
    assert_eq!(usage_from_response(&summary(u64::MAX)), Ok(MAX_MB));
    assert_eq!(usage_from_response("{\"return\": {\"base-memory\": -5}}"), Err(ResponseError::MissingField));
    assert_eq!(usage_from_response("{\"return\""), Err(ResponseError::Malformed));
    assert_eq!(usage_from_lookup(Some(Some(3 * MIB + 1))), Ok(3));
    assert_eq!(usage_from_lookup(None), Err(ResponseError::Malformed));
    assert_eq!(usage_from_lookup(Some(None)), Err(ResponseError::MissingField));
}

#[test]
fn handshake_reply_must_be_json() {
    assert!(response_well_formed("{\"return\": {}}"));
    assert!(!response_well_formed("{\"QMP\""));
    assert!(!response_well_formed(""));
}

#[test]
fn bytes_of_mib() {
    assert_eq!(mb_to_bytes(334), 334 * 1_048_576);
    assert_eq!(mb_to_bytes(MAX_MB), 18_446_744_073_708_503_040);
}

#[test]
fn target_parsing() {
    assert_eq!(parse_target("500"), Some(500));
    assert_eq!(parse_target("+42"), Some(42));
    assert_eq!(parse_target("0"), Some(0));
    assert_eq!(parse_target("17592186044415"), Some(MAX_MB));
    assert_eq!(parse_target("17592186044416"), None);
    assert_eq!(parse_target("99999999999999999999999"), None);
    assert_eq!(parse_target(""), None);
    assert_eq!(parse_target("+"), None);
    assert_eq!(parse_target("-1"), None);
    assert_eq!(parse_target("12a"), None);
}

#[test]
fn config_reads_entries_in_order() {
    let reg = two_machines();
    assert_eq!(reg.len(), 2);
    assert_eq!(reg.id(0), "a");
    assert_eq!(reg.id(1), "b");
    assert_eq!(reg.channel_address(1), "/run/b.sock");
    assert_eq!(
        reg.get_entry(1),
        Allocation { declared_target_mb: 500, observed_actual_mb: 0, last_adjusted_at_ms: 0 }
    );
    assert!(reg.contains(&"a".to_string()));
    assert!(!reg.contains(&"c".to_string()));
    assert_eq!(reg.snapshot_totals(), (0, 1000));
}

#[test]
fn config_errors() {
    assert_eq!(parse_config(&args(&[]), 0).unwrap_err(), ConfigError::IncompleteEntry);
    assert_eq!(parse_config(&args(&["a", "/a"]), 0).unwrap_err(), ConfigError::IncompleteEntry);
    assert_eq!(
        parse_config(&args(&["a", "/a", "1", "b", "/b", "x"]), 0).unwrap_err(),
        ConfigError::InvalidTarget { entry: 1 }
    );
    assert_eq!(
        parse_config(&args(&["a", "/a", "1", "a", "/b", "2"]), 0).unwrap_err(),
        ConfigError::DuplicateWorkload { entry: 1 }
    );
    assert_eq!(
        parse_config(&args(&["a", "/a", "1", "a", "/b", "x"]), 0).unwrap_err(),
        ConfigError::InvalidTarget { entry: 1 }
    );
}

#[test]
fn too_many_workloads() {
    let mut words = Vec::new();
    for i in 0..1_048_577u64 {
        words.push(format!("vm{}", i));
        words.push(String::new());
        words.push("1".to_string());
    }
    assert_eq!(parse_config(&words, 0).unwrap_err(), ConfigError::TooManyWorkloads);
}

#[test]
fn stop_flag_ends_the_worker() {
    let mut reg = two_machines();
    let mut w = Worker::new(0);
    assert_eq!(w.step(&mut reg, Event::Tick { stop_requested: true }, 0), Action::Exit);
    assert_eq!(w.phase, Phase::Stopped);
    assert_eq!(w.step(&mut reg, Event::Tick { stop_requested: false }, 0), Action::Exit);
}

#[test]
fn channel_failure_ends_the_cycle() {
    let mut reg = two_machines();
    let mut w = Worker::new(0);
    assert_eq!(w.step(&mut reg, Event::Tick { stop_requested: false }, 0), Action::Connect);
    assert_eq!(w.step(&mut reg, Event::ChannelFailed, 0), Action::Sleep);
    assert_eq!(w.phase, Phase::Idle);
    assert_eq!(w.step(&mut reg, Event::Tick { stop_requested: false }, 0), Action::Connect);
    assert_eq!(w.step(&mut reg, Event::Connected, 0), Action::SendHandshake);
    assert_eq!(w.step(&mut reg, Event::Response("garbage".to_string()), 0), Action::Sleep);
}

#[test]
fn empty_registry() {
    let reg = Registry::new();
    assert_eq!(reg.len(), 0);
    assert_eq!(reg.snapshot_totals(), (0, 0));
}

#[test]
fn insert_and_mark() {
    let mut reg = Registry::new();
    reg.insert("x".to_string(), "/x".to_string(), 64, 5);
    reg.mark_adjusted(0, 99);
    assert_eq!(
        reg.get_entry(0),
        Allocation { declared_target_mb: 64, observed_actual_mb: 0, last_adjusted_at_ms: 99 }
    );
}

#[test]
fn request_lines() {
    assert_eq!(encode_request(Request::Capabilities), "{\"execute\":\"qmp_capabilities\"}\n");
    assert_eq!(
        encode_request(Request::MemorySummary),
        "{\"execute\":\"query-memory-size-summary\"}\n"
    );
    assert_eq!(
        encode_request(Request::Balloon { bytes: 334 * MIB }),
        "{\"execute\":\"balloon\",\"arguments\":{\"value\":350224384}}\n"
    );
    assert_eq!(
        encode_request(Request::Balloon { bytes: 0 }),
        "{\"execute\":\"balloon\",\"arguments\":{\"value\":0}}\n"
    );
    assert_eq!(
        encode_request(Request::Balloon { bytes: u64::MAX }),
        "{\"execute\":\"balloon\",\"arguments\":{\"value\":18446744073709551615}}\n"
    );
}

#[test]
fn request_lines_are_json() {
    let line = encode_request(Request::Balloon { bytes: 1024 });
    let v: serde_json::Value = serde_json::from_str(&line).unwrap();
    assert_eq!(v["arguments"]["value"].as_u64(), Some(1024));
    assert_eq!(v["execute"].as_str(), Some("balloon"));
}
