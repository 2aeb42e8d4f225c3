use dune_admin::battlegroup::{
    battlegroup_stopped, count_server_pods_in, is_started_phase, ready_summary_from,
    BattlegroupCli, BattlegroupReadyStatus, ReadySummary, ServerReadiness,
};

fn summary(phase: &str, sgp: &str, ready: u32, size: u32) -> ReadySummary {
    ReadySummary {
        phase: phase.to_string(),
        server_group_phase: sgp.to_string(),
        ready,
        size,
    }
}

#[test]
fn reconciling_bg_is_running_even_with_lagging_ready_flags() {
    assert!(summary("Reconciling", "Running", 0, 3).is_running());
    assert!(summary("Reconciling", "Reconciling", 1, 3).is_running());
    assert!(summary("Running", "Running", 3, 3).is_running());
}

#[test]
fn stopped_or_empty_phase_is_not_running() {
    assert!(!summary("Stopped", "Stopped", 0, 0).is_running());
    assert!(!summary("", "", 0, 0).is_running());
    assert!(!summary("Reconciling", "Stopped", 0, 3).is_running());
}

#[test]
fn started_phases_ignore_case_and_whitespace() {
    for p in ["Running", " healthy ", "READY", "Available", "reconciling"] {
        assert!(is_started_phase(p), "{p}");
    }
    for p in ["Stopped", "", "Starting", "Pending", "Run ning"] {
        assert!(!is_started_phase(p), "{p}");
    }
}

#[test]
fn stop_flag_and_pod_count_decide_stopped() {
    assert!(battlegroup_stopped("true", 0));
    assert!(!battlegroup_stopped("true", 1));
    assert!(!battlegroup_stopped("false", 0));
}

#[test]
fn server_pod_lines_are_counted() {
    let out = "sh-bg-sg-survival-1-pod-0   <none>\n  sh-bg-sg-overmap-pod-1\nsh-bg-sg-deep-pod-2   2026-05-01T00:00:00Z\nsh-bg-db-0   <none>\n\n";
    assert_eq!(count_server_pods_in(out), 2);
    assert_eq!(count_server_pods_in(""), 0);
}

#[test]
fn cli_path_joins_bin_dir() {
    assert_eq!(BattlegroupCli::new("/opt/dune").bin_str(), "/opt/dune/battlegroup");
    assert_eq!(BattlegroupCli::new("/opt/dune/").bin_str(), "/opt/dune/battlegroup");
    assert_eq!(BattlegroupCli::new("").bin_str(), "battlegroup");
}

#[test]
fn ready_summary_counts_ready_servers() {
    let status = BattlegroupReadyStatus {
        phase: Some("Running".to_string()),
        server_group_phase: Some("Running".to_string()),
        servers: Some(vec![
            ServerReadiness { ready: Some(true), phase: Some("Running".to_string()) },
            ServerReadiness { ready: Some(true), phase: None },
            ServerReadiness { ready: Some(false), phase: Some("Running".to_string()) },
        ]),
        size: None,
    };
    let s = ready_summary_from(&status);
    assert_eq!(s.size, 3);
    assert_eq!(s.ready, 1);
    assert!(s.is_running());
    let sized = BattlegroupReadyStatus {
        phase: None,
        server_group_phase: None,
        servers: None,
        size: Some(5),
    };
    let s = ready_summary_from(&sized);
    assert_eq!((s.phase.as_str(), s.ready, s.size), ("", 0, 5));
    assert!(!s.is_running());
}
