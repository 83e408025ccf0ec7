use std::collections::HashMap;

use jcode_core::herdr;
use jcode_core::herdr::AgentState;

fn env(pairs: &[(&str, &str)]) -> impl Fn(&str) -> Option<String> {
    let map: HashMap<String, String> = pairs
        .iter()
        .map(|(key, value)| (key.to_string(), value.to_string()))
        .collect();
    move |key| map.get(key).cloned()
}

fn pane() -> herdr::Target {
    herdr::Target { bin: "herdr".to_string(), pane_id: "w1:p9".to_string() }
}

#[test]
fn disabled_without_herdr_env() {
    assert!(herdr::resolve_target(env(&[("HERDR_PANE_ID", "w1:p1")])).is_none());
    assert!(herdr::resolve_target(env(&[])).is_none());
    assert!(
        herdr::resolve_target(env(&[("HERDR_ENV", "0"), ("HERDR_PANE_ID", "w1:p1"),])).is_none()
    );
}

#[test]
fn disabled_without_pane_id() {
    assert!(herdr::resolve_target(env(&[("HERDR_ENV", "1")])).is_none());
}

#[test]
fn resolves_pane_and_default_binary() {
    let target = herdr::resolve_target(env(&[("HERDR_ENV", "1"), ("HERDR_PANE_ID", "w1:p1")]))
        .expect("target");
    assert_eq!(target.pane_id, "w1:p1");
    assert_eq!(target.bin, "herdr");
}

#[test]
fn prefers_herdr_bin_path() {
    let target = herdr::resolve_target(env(&[
        ("HERDR_ENV", "1"),
        ("HERDR_PANE_ID", "w1:p1"),
        ("HERDR_BIN_PATH", "/usr/local/bin/herdr"),
    ]))
    .expect("target");
    assert_eq!(target.bin, "/usr/local/bin/herdr");
}

#[test]
fn agent_state_names_match_herdr_enum() {
    assert_eq!(AgentState::Idle.as_str(), "idle");
    assert_eq!(AgentState::Working.as_str(), "working");
    assert_eq!(AgentState::Blocked.as_str(), "blocked");
}

#[test]
fn report_is_noop_outside_herdr() {
    // Outside a pane nothing is to be spawned.
    let mut reporter = herdr::Reporter::new();
    reporter.spawned(&herdr::report(Some(&pane()), AgentState::Idle).expect("command"), true);
    assert!(herdr::report(None, AgentState::Working).is_none());
    assert!(herdr::report_for_session(
        None,
        AgentState::Blocked,
        Some("s_test"),
        Some("awaiting answer")
    )
    .is_none());
    assert!(herdr::report_session_identity(None, "s_test").is_none());
    assert!(herdr::release(None).is_none());
    assert!(herdr::release_if_registered(&reporter, None).is_none());
}

#[test]
fn release_spawns_release_agent_with_pane() {
    let command = herdr::release(Some(&pane())).expect("command");
    assert_eq!(command.bin, "herdr");
    assert!(command
        .args
        .join(" ")
        .contains("release-agent --source custom:jcode --agent jcode w1:p9"));
}

#[test]
fn release_if_registered_requires_a_prior_report() {
    let target = pane();
    let mut reporter = herdr::Reporter::new();
    assert!(herdr::release_if_registered(&reporter, Some(&target)).is_none());
    let report = herdr::report(Some(&target), AgentState::Working).expect("command");
    reporter.spawned(&report, false);
    assert!(herdr::release_if_registered(&reporter, Some(&target)).is_none());
    reporter.spawned(&report, true);
    let command = herdr::release_if_registered(&reporter, Some(&target)).expect("command");
    assert!(command
        .args
        .join(" ")
        .contains("release-agent --source custom:jcode --agent jcode w1:p9"));
}

#[test]
fn a_report_carries_state_session_and_message() {
    let command = herdr::report_for_session(
        Some(&pane()),
        AgentState::Blocked,
        Some("s_test"),
        Some("awaiting answer"),
    )
    .expect("command");
    let line = command.args.join(" ");
    assert!(line.contains("report-agent"));
    assert!(line.contains("--state blocked"));
    assert!(line.contains("--agent-session-id s_test"));
    assert!(line.contains("--message awaiting answer"));
    assert!(line.ends_with("w1:p9"));
    let bare = herdr::report(Some(&pane()), AgentState::Idle).expect("command");
    assert!(bare.args.join(" ").contains("--state idle"));
    assert!(!bare.args.join(" ").contains("--message"));
}

#[test]
fn an_identity_needs_a_session() {
    assert!(herdr::report_session_identity(Some(&pane()), "").is_none());
    let command = herdr::report_session_identity(Some(&pane()), "s1").expect("command");
    assert!(command.args.join(" ").contains("--agent-session-id s1 w1:p9"));
}

#[test]
fn a_release_registers_nobody() {
    let target = pane();
    let mut reporter = herdr::Reporter::new();
    reporter.spawned(&herdr::release(Some(&target)).expect("command"), true);
    assert!(herdr::release_if_registered(&reporter, Some(&target)).is_none());
    let identity = herdr::report_session_identity(Some(&target), "s1").expect("command");
    reporter.spawned(&identity, true);
    assert!(herdr::release_if_registered(&reporter, Some(&target)).is_some());
    reporter.spawned(&herdr::release(Some(&target)).expect("command"), true);
    assert!(reporter.registered);
}
