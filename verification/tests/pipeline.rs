//! Tests of the discovery pipeline's verified core: registry lookup,
//! output classification, reply parsing, per-interface deduplication,
//! and interface eligibility.

use devscan::orchestrate::{eligible, eligible_interfaces, NetInterface};
use devscan::probe::{
    classify_output, connection_address, probe_outcome, trim_terminator, FailureCause,
    ProbeOutcome,
};
use devscan::registry::ModelRegistry;
use devscan::scan::{parse_reply_address, PingEvent, ScanAction, ScanState};

#[test]
fn lookup_returns_each_registered_model() {
    let reg = ModelRegistry::standard();
    let table = [
        ("7AA", "Axis W800"),
        ("7DC.1", "Axis W100"),
        ("908", "Axis W101 Alpha"),
        ("908.1", "Axis W101 Alpha"),
        ("908.2", "Axis W101 PS"),
        ("908.21", "Axis W101 Black"),
        ("908.22", "Axis W101 White"),
        ("95F", "Axis W110 Alpha"),
        ("95F.1", "Axis W110 Black"),
        ("95F.2", "Axis W110 Gray"),
    ];
    for (id, model) in table {
        assert_eq!(reg.lookup(id).map(|m| m.as_str()), Some(model));
    }
}

#[test]
fn lookup_misses_absent_ids() {
    let reg = ModelRegistry::standard();
    assert!(reg.lookup("ZZZ").is_none());
    assert!(reg.lookup("").is_none());
    assert!(reg.lookup("7aa").is_none());
    assert!(reg.lookup("7AA ").is_none());
    assert!(reg.lookup("908.2.1").is_none());
}

#[test]
fn resolving_same_trimmed_id_twice_matches() {
    let reg = ModelRegistry::standard();
    let first = reg.lookup("908.21").cloned();
    let second = reg.lookup("908.21").cloned();
    assert_eq!(first, second);
    let once = classify_output(&reg, "95F.2\n", "fe80::5");
    let twice = classify_output(&reg, "95F.2\n", "fe80::5");
    match (once, twice) {
        (
            ProbeOutcome::Identified { model: m1, address: a1 },
            ProbeOutcome::Identified { model: m2, address: a2 },
        ) => {
            assert_eq!(m1, m2);
            assert_eq!(a1, a2);
            assert_eq!(m1, "Axis W110 Gray");
        }
        other => panic!("expected two identical identifications, got {:?}", other),
    }
}

#[test]
fn known_output_is_identified() {
    let reg = ModelRegistry::standard();
    let out = classify_output(&reg, "7AA\n", "fe80::1%eth0");
    assert!(matches!(
        out,
        ProbeOutcome::Identified { model, address }
            if model == "Axis W800" && address == "fe80::1%eth0"
    ));
}

#[test]
fn unknown_output_is_unidentified() {
    let reg = ModelRegistry::standard();
    let out = classify_output(&reg, "ZZZ\n", "fe80::2");
    assert!(matches!(
        out,
        ProbeOutcome::Unidentified { raw_id, address }
            if raw_id == "ZZZ" && address == "fe80::2"
    ));
}

#[test]
fn trim_removes_exactly_one_terminator() {
    assert_eq!(trim_terminator("7AA\n"), "7AA");
    assert_eq!(trim_terminator("7AA\n\n"), "7AA\n");
    assert_eq!(trim_terminator("\n"), "");
    assert_eq!(trim_terminator(""), "");
}

#[test]
fn scope_suffix_is_stripped_for_connection() {
    assert_eq!(connection_address("fe80::1%eth0"), "fe80::1");
    assert_eq!(connection_address("fe80::1"), "fe80::1");
    assert_eq!(connection_address("%eth0"), "");
    assert_eq!(connection_address("fe80::1%eth0%2"), "fe80::1");
}

#[test]
fn session_success_is_classified() {
    let reg = ModelRegistry::standard();
    let out = probe_outcome(&reg, "fe80::1", Ok("908.22\n".to_string()));
    assert!(matches!(
        out,
        ProbeOutcome::Identified { model, address }
            if model == "Axis W101 White" && address == "fe80::1"
    ));
}

#[test]
fn each_session_failure_is_reported_for_its_address() {
    let reg = ModelRegistry::standard();
    for cause in [
        FailureCause::Connection,
        FailureCause::Auth,
        FailureCause::Command,
        FailureCause::Timeout,
    ] {
        let out = probe_outcome(&reg, "fe80::9", Err(cause));
        assert!(matches!(
            out,
            ProbeOutcome::Failed { cause: c, address } if c == cause && address == "fe80::9"
        ));
    }
}

#[test]
fn unfinished_connection_becomes_timeout_failure() {
    // The fixed timeout after which the session layer abandons an
    // unfinished connection attempt and hands back a timeout.
    assert_eq!(devscan::probe::CONNECT_TIMEOUT_SECS, 3);
    let reg = ModelRegistry::standard();
    let out = probe_outcome(&reg, "fe80::dead", Err(FailureCause::Timeout));
    assert!(matches!(
        out,
        ProbeOutcome::Failed { cause: FailureCause::Timeout, address } if address == "fe80::dead"
    ));
    // A sibling probe is classified independently of the failed one.
    let sibling = probe_outcome(&reg, "fe80::1", Ok("7AA\n".to_string()));
    assert!(matches!(sibling, ProbeOutcome::Identified { .. }));
}

#[test]
fn reply_line_yields_fourth_token_without_trailing_character() {
    let line = "64 bytes from fe80::1%eth0: icmp_seq=1 ttl=64 time=0.3 ms";
    assert_eq!(parse_reply_address(line), Some("fe80::1%eth0".to_string()));
}

#[test]
fn short_reply_line_yields_no_address() {
    assert_eq!(parse_reply_address("too few tokens"), None);
    assert_eq!(parse_reply_address(""), None);
}

#[test]
fn same_address_starts_only_one_prober() {
    let mut state = ScanState::new();
    let line = "64 bytes from fe80::1: icmp_seq=1".to_string();
    let first = state.observe(PingEvent::Reply(line.clone()));
    assert!(matches!(first, ScanAction::StartProbe(a) if a == "fe80::1"));
    let second = state.observe(PingEvent::Reply(line));
    assert!(matches!(second, ScanAction::Ignore));
    // The same address on a later, differently shaped line is still a
    // duplicate.
    let third = state.observe(PingEvent::Reply("64 bytes from fe80::1: icmp_seq=7".to_string()));
    assert!(matches!(third, ScanAction::Ignore));
}

#[test]
fn distinct_addresses_each_start_a_prober() {
    let mut state = ScanState::new();
    let a = state.observe(PingEvent::Reply("64 bytes from fe80::1: x".to_string()));
    let b = state.observe(PingEvent::Reply("64 bytes from fe80::2: x".to_string()));
    assert!(matches!(a, ScanAction::StartProbe(addr) if addr == "fe80::1"));
    assert!(matches!(b, ScanAction::StartProbe(addr) if addr == "fe80::2"));

    // Arrival order does not matter: swapped, both still start once.
    let mut swapped = ScanState::new();
    let b2 = swapped.observe(PingEvent::Reply("64 bytes from fe80::2: x".to_string()));
    let a2 = swapped.observe(PingEvent::Reply("64 bytes from fe80::1: x".to_string()));
    assert!(matches!(b2, ScanAction::StartProbe(addr) if addr == "fe80::2"));
    assert!(matches!(a2, ScanAction::StartProbe(addr) if addr == "fe80::1"));
}

#[test]
fn whole_event_sequence_starts_each_address_once() {
    let mut state = ScanState::new();
    let events = vec![
        PingEvent::Reply("64 bytes from fe80::1: x".to_string()),
        PingEvent::Reply("64 bytes from fe80::1: y".to_string()),
        PingEvent::Timeout,
        PingEvent::Reply("64 bytes from fe80::2: x".to_string()),
        PingEvent::Reply("bad".to_string()),
        PingEvent::Reply("64 bytes from fe80::2: z".to_string()),
    ];
    let started = state.observe_all(events);
    assert_eq!(started, vec!["fe80::1".to_string(), "fe80::2".to_string()]);
}

#[test]
fn non_reply_events_do_not_touch_the_seen_set() {
    let mut state = ScanState::new();
    assert!(matches!(state.observe(PingEvent::Timeout), ScanAction::ReportTimeout));
    assert!(matches!(
        state.observe(PingEvent::ProcessExited),
        ScanAction::ReportProcessExited
    ));
    assert!(matches!(state.observe(PingEvent::Unknown), ScanAction::Fatal));
    // A reply after those still starts its prober: nothing was marked seen.
    let r = state.observe(PingEvent::Reply("64 bytes from fe80::1: x".to_string()));
    assert!(matches!(r, ScanAction::StartProbe(_)));
}

#[test]
fn unparseable_reply_is_ignored() {
    let mut state = ScanState::new();
    assert!(matches!(
        state.observe(PingEvent::Reply("short line".to_string())),
        ScanAction::Ignore
    ));
}

#[test]
fn loopback_and_container_interfaces_are_excluded() {
    assert!(!eligible("docker0"));
    assert!(!eligible("lo"));
    assert!(!eligible("lo0"));
    assert!(eligible("eth0"));
    assert!(eligible("wlan0"));
    // Only a full prefix excludes: "dock" alone is not "docker".
    assert!(eligible("dock0"));
}

#[test]
fn ineligible_interfaces_never_reach_a_scan() {
    let all = vec![
        NetInterface::new("lo".to_string(), 1),
        NetInterface::new("eth0".to_string(), 2),
        NetInterface::new("docker0".to_string(), 3),
        NetInterface::new("wlan0".to_string(), 4),
    ];
    let kept = eligible_interfaces(&all);
    let names: Vec<&str> = kept.iter().map(|i| i.name.as_str()).collect();
    assert_eq!(names, vec!["eth0", "wlan0"]);
    assert_eq!(kept[0].index, 2);
    assert_eq!(kept[1].index, 4);
    assert!(all[2].name == "docker0" && !all[2].is_eligible());
}

#[test]
fn fixed_session_parameters() {
    assert_eq!(devscan::probe::REMOTE_PORT, 22);
    assert_eq!(devscan::probe::PING_INTERVAL_SECS, 3);
    assert_eq!(devscan::probe::multicast_target(), "ff02::1");
    assert_eq!(devscan::probe::ident_command(), "bootblocktool -x HWID");
    assert_eq!(devscan::probe::remote_user(), "root");
    assert_eq!(devscan::probe::remote_password(), "pass");
}
